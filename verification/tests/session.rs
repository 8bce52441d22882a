use dvr_client::frames::LOGIN_ACCEPT;
use dvr_client::session::{
    reconnect_pause, SessionAction, SessionClient, SessionEvent, SessionState,
    HEARTBEAT_PERIOD_SECS, RECONNECT_ATTEMPTS,
};

fn awaiting_login() -> SessionClient {
    let mut c = SessionClient::new();
    assert_eq!(c.step(&SessionEvent::Connected), SessionAction::SendLogin);
    c
}

#[test]
fn a_new_session_is_connecting() {
    let c = SessionClient::new();
    assert_eq!(c.state, SessionState::Connecting);
    assert!(!c.media_started);
}

#[test]
fn connecting_sends_the_login() {
    let c = awaiting_login();
    assert_eq!(c.state, SessionState::AwaitingLoginAck);
}

#[test]
fn login_accept_requests_the_stream_once() {
    let mut c = awaiting_login();
    assert_eq!(
        c.step(&SessionEvent::FrameRead([0xAB, 0xCD, 0x00, 0x81, 0x00, 0x00, 0x01, 0x11])),
        SessionAction::SendStartStream
    );
    assert_eq!(c.state, SessionState::StreamRequested);
    // The same frame again asks for nothing more.
    assert_eq!(c.step(&SessionEvent::FrameRead(LOGIN_ACCEPT)), SessionAction::Wait);
    assert_eq!(c.state, SessionState::StreamRequested);
}

#[test]
fn any_other_frame_leaves_the_state_unchanged() {
    let frames: [[u8; 8]; 5] = [
        [0; 8],
        [0xAB, 0xCD, 0x00, 0x00, 0x00, 0x00, 0x01, 0x13],
        [0xAB, 0xCD, 0x00, 0x81, 0x00, 0x00, 0x01, 0x10],
        [0xAB, 0xCD, 0x00, 0x80, 0x00, 0x00, 0x01, 0x11],
        [0xCD, 0xAB, 0x00, 0x81, 0x00, 0x00, 0x01, 0x11],
    ];
    for f in frames {
        let mut c = awaiting_login();
        assert_eq!(c.step(&SessionEvent::FrameRead(f)), SessionAction::Wait);
        assert_eq!(c.state, SessionState::AwaitingLoginAck);
        assert!(!c.media_started);
    }
    for i in 0..8 {
        for bit in 0..8 {
            let mut f = LOGIN_ACCEPT;
            f[i] ^= 1 << bit;
            let mut c = awaiting_login();
            assert_eq!(c.step(&SessionEvent::FrameRead(f)), SessionAction::Wait);
            assert_eq!(c.state, SessionState::AwaitingLoginAck);
        }
    }
}

#[test]
fn frames_matter_only_while_the_login_is_unanswered() {
    let mut c = SessionClient::new();
    assert_eq!(c.step(&SessionEvent::FrameRead(LOGIN_ACCEPT)), SessionAction::Wait);
    assert_eq!(c.state, SessionState::Connecting);
}

#[test]
fn a_full_write_starts_the_media_ingest() {
    let mut c = awaiting_login();
    c.step(&SessionEvent::FrameRead(LOGIN_ACCEPT));
    assert_eq!(c.step(&SessionEvent::StartStreamWritten(16)), SessionAction::StartMedia);
    assert_eq!(c.state, SessionState::Streaming);
    assert!(c.media_started);
    // Nothing starts it a second time.
    assert_eq!(c.step(&SessionEvent::StartStreamWritten(16)), SessionAction::Wait);
    assert_eq!(c.step(&SessionEvent::FrameRead(LOGIN_ACCEPT)), SessionAction::Wait);
    assert_eq!(c.state, SessionState::Streaming);
}

#[test]
fn a_short_write_leaves_the_session_alive_without_a_stream() {
    for written in [0usize, 1, 8, 15, 17, 136] {
        let mut c = awaiting_login();
        c.step(&SessionEvent::FrameRead(LOGIN_ACCEPT));
        assert_eq!(c.step(&SessionEvent::StartStreamWritten(written)), SessionAction::Wait);
        assert_eq!(c.state, SessionState::Alive);
        assert!(!c.media_started);
        assert_eq!(c.step(&SessionEvent::FrameRead(LOGIN_ACCEPT)), SessionAction::Wait);
        assert_eq!(c.step(&SessionEvent::StartStreamWritten(16)), SessionAction::Wait);
        assert_eq!(c.state, SessionState::Alive);
    }
}

#[test]
fn a_write_report_without_a_request_is_ignored() {
    let mut c = awaiting_login();
    assert_eq!(c.step(&SessionEvent::StartStreamWritten(16)), SessionAction::Wait);
    assert_eq!(c.state, SessionState::AwaitingLoginAck);
    assert!(!c.media_started);
}

#[test]
fn heartbeats_go_out_in_every_state() {
    assert_eq!(HEARTBEAT_PERIOD_SECS, 3);
    let states = [
        SessionState::Connecting,
        SessionState::AwaitingLoginAck,
        SessionState::Alive,
        SessionState::StreamRequested,
        SessionState::Streaming,
    ];
    for state in states {
        for media_started in [false, true] {
            let mut c = SessionClient { state, media_started };
            assert_eq!(c.step(&SessionEvent::HeartbeatDue), SessionAction::SendHeartbeat);
            assert_eq!(c, SessionClient { state, media_started });
        }
    }
}

#[test]
fn a_lost_connection_restarts_the_handshake() {
    let mut c = awaiting_login();
    c.step(&SessionEvent::FrameRead(LOGIN_ACCEPT));
    c.step(&SessionEvent::StartStreamWritten(16));
    assert_eq!(c.step(&SessionEvent::ConnectionLost), SessionAction::Reconnect);
    assert_eq!(c.state, SessionState::Connecting);
    assert!(c.media_started);
    assert_eq!(c.step(&SessionEvent::Connected), SessionAction::SendLogin);
    assert_eq!(c.step(&SessionEvent::FrameRead(LOGIN_ACCEPT)), SessionAction::SendStartStream);
    // The stream is requested again, the ingest is not started again.
    assert_eq!(c.step(&SessionEvent::StartStreamWritten(16)), SessionAction::Wait);
    assert_eq!(c.state, SessionState::Streaming);
}

#[test]
fn connected_is_ignored_once_connected() {
    let mut c = awaiting_login();
    assert_eq!(c.step(&SessionEvent::Connected), SessionAction::Wait);
    assert_eq!(c.state, SessionState::AwaitingLoginAck);
}

#[test]
fn media_starts_at_most_once_over_a_long_run() {
    let events = [
        SessionEvent::HeartbeatDue,
        SessionEvent::Connected,
        SessionEvent::FrameRead([0; 8]),
        SessionEvent::HeartbeatDue,
        SessionEvent::FrameRead(LOGIN_ACCEPT),
        SessionEvent::StartStreamWritten(16),
        SessionEvent::ConnectionLost,
        SessionEvent::Connected,
        SessionEvent::FrameRead(LOGIN_ACCEPT),
        SessionEvent::StartStreamWritten(16),
        SessionEvent::HeartbeatDue,
        SessionEvent::StartStreamWritten(16),
    ];
    let mut c = SessionClient::new();
    let mut started = 0;
    let mut requests = 0;
    for e in events.iter() {
        match c.step(e) {
            SessionAction::StartMedia => started += 1,
            SessionAction::SendStartStream => requests += 1,
            _ => {}
        }
    }
    assert_eq!(started, 1);
    assert_eq!(requests, 2);
}

#[test]
fn reconnect_pauses_double_and_run_out() {
    assert_eq!(RECONNECT_ATTEMPTS, 5);
    assert_eq!(reconnect_pause(0), Some(1));
    assert_eq!(reconnect_pause(1), Some(2));
    assert_eq!(reconnect_pause(2), Some(4));
    assert_eq!(reconnect_pause(3), Some(8));
    assert_eq!(reconnect_pause(4), Some(16));
    assert_eq!(reconnect_pause(5), None);
    assert_eq!(reconnect_pause(6), None);
    assert_eq!(reconnect_pause(u32::MAX), None);
}

#[test]
fn a_frame_is_awaited_only_while_the_login_is_unanswered() {
    let states = [
        SessionState::Connecting,
        SessionState::AwaitingLoginAck,
        SessionState::Alive,
        SessionState::StreamRequested,
        SessionState::Streaming,
    ];
    for state in states {
        for media_started in [false, true] {
            let c = SessionClient { state, media_started };
            assert_eq!(c.awaits_frame(), state == SessionState::AwaitingLoginAck);
        }
    }
}
