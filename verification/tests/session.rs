//! Session behaviour: the handshake, the command-driven state machine, and
//! the window acknowledgement bookkeeping.

use xiu::amf0::{Amf0Property, Amf0Value};
use xiu::handshake::{HandshakeState, SimpleHandshakeServer};
use xiu::session::{
    command_from_values, AckTracker, RtmpCommand, ServerSession, SessionAction, SessionState,
};

fn c0c1(version: u8) -> Vec<u8> {
    let mut v = vec![version];
    v.extend_from_slice(&[0, 0, 0, 1]); // time
    v.extend_from_slice(&[0, 0, 0, 0]); // zero
    v.extend_from_slice(&vec![0x5a; 1528]); // filler
    v
}

#[test]
fn handshake_simple_flow() {
    let mut hs = SimpleHandshakeServer::new(7, vec![0x11; 1528]);
    let c0c1 = c0c1(3);
    let reply = hs.extend_data(&c0c1).unwrap().unwrap();
    assert_eq!(reply.len(), 1 + 1536 + 1536);
    // S0 is the version
    assert_eq!(reply[0], 3);
    // S1 starts with the server's time and four zero bytes
    assert_eq!(&reply[1..5], &[0, 0, 0, 7]);
    assert_eq!(&reply[5..9], &[0, 0, 0, 0]);
    assert_eq!(&reply[9..1537], &vec![0x11; 1528][..]);
    // S2 echoes C1
    assert_eq!(&reply[1537..], &c0c1[1..]);
    assert!(matches!(hs.state, HandshakeState::WaitC2));
    // C2 completes the handshake
    let c2 = vec![0x22; 1536];
    assert!(hs.extend_data(&c2).unwrap().is_none());
    assert!(matches!(hs.state, HandshakeState::Done));
}

#[test]
fn handshake_waits_for_full_c0c1() {
    let mut hs = SimpleHandshakeServer::new(0, vec![0; 1528]);
    let all = c0c1(3);
    assert!(hs.extend_data(&all[..100]).unwrap().is_none());
    assert!(matches!(hs.state, HandshakeState::WaitC0C1));
    assert!(hs.extend_data(&all[100..]).unwrap().is_some());
}

#[test]
fn handshake_rejects_bad_version() {
    let mut hs = SimpleHandshakeServer::new(0, vec![0; 1528]);
    assert!(hs.extend_data(&c0c1(9)).is_err());
}

#[test]
fn session_publish_flow() {
    let mut s = ServerSession::new();
    let a = s.handle_command(RtmpCommand::Connect { app_name: b"live".to_vec() });
    assert_eq!(a, SessionAction::SendConnectResult);
    assert!(matches!(s.state, SessionState::Connected));
    assert_eq!(s.app_name, b"live".to_vec());
    let a = s.handle_command(RtmpCommand::CreateStream);
    assert_eq!(a, SessionAction::SendCreateStreamResult { stream_id: 1 });
    assert!(matches!(s.state, SessionState::Created));
    let a = s.handle_command(RtmpCommand::Publish { stream_name: b"movie".to_vec() });
    assert_eq!(a, SessionAction::StartPublishing { stream_name: b"movie".to_vec() });
    assert!(matches!(s.state, SessionState::Publishing));
    assert_eq!(s.stream_name, b"movie".to_vec());
}

#[test]
fn session_play_flow() {
    let mut s = ServerSession::new();
    s.handle_command(RtmpCommand::Connect { app_name: b"live".to_vec() });
    s.handle_command(RtmpCommand::CreateStream);
    let a = s.handle_command(RtmpCommand::Play { stream_name: b"movie".to_vec() });
    assert_eq!(a, SessionAction::StartPlaying { stream_name: b"movie".to_vec() });
    assert!(matches!(s.state, SessionState::Playing));
}

#[test]
fn session_closes_on_out_of_place_or_unknown_command() {
    let mut s = ServerSession::new();
    // publish before connect is a protocol violation
    let a = s.handle_command(RtmpCommand::Publish { stream_name: b"x".to_vec() });
    assert_eq!(a, SessionAction::CloseSession);
    assert!(matches!(s.state, SessionState::Closed));

    let mut s2 = ServerSession::new();
    s2.handle_command(RtmpCommand::Connect { app_name: b"live".to_vec() });
    let a = s2.handle_command(RtmpCommand::Unknown { name: b"bogus".to_vec() });
    assert_eq!(a, SessionAction::CloseSession);
    assert!(matches!(s2.state, SessionState::Closed));
}

#[test]
fn session_delete_stream_closes() {
    let mut s = ServerSession::new();
    s.handle_command(RtmpCommand::Connect { app_name: b"live".to_vec() });
    let a = s.handle_command(RtmpCommand::DeleteStream);
    assert_eq!(a, SessionAction::CloseSession);
    assert!(matches!(s.state, SessionState::Closed));
}

#[test]
fn session_tolerates_fcpublish() {
    let mut s = ServerSession::new();
    s.handle_command(RtmpCommand::Connect { app_name: b"live".to_vec() });
    let a = s.handle_command(RtmpCommand::Tolerated);
    assert_eq!(a, SessionAction::Nothing);
    assert!(matches!(s.state, SessionState::Connected));
}

#[test]
fn stream_ids_are_monotonic() {
    let mut s = ServerSession::new();
    s.handle_command(RtmpCommand::Connect { app_name: b"live".to_vec() });
    let a = s.handle_command(RtmpCommand::CreateStream);
    assert_eq!(a, SessionAction::SendCreateStreamResult { stream_id: 1 });
    assert_eq!(s.next_stream_id, 2);
}

#[test]
fn commands_decode_from_amf_values() {
    let connect = vec![
        Amf0Value::Utf8String(b"connect".to_vec()),
        Amf0Value::Number(1.0f64.to_bits()),
        Amf0Value::Object(vec![Amf0Property {
            key: b"app".to_vec(),
            value: Amf0Value::Utf8String(b"live".to_vec()),
        }]),
    ];
    assert!(matches!(
        command_from_values(&connect),
        RtmpCommand::Connect { app_name } if app_name == b"live".to_vec()
    ));

    let publish = vec![
        Amf0Value::Utf8String(b"publish".to_vec()),
        Amf0Value::Number(2.0f64.to_bits()),
        Amf0Value::Null,
        Amf0Value::Utf8String(b"movie".to_vec()),
    ];
    assert!(matches!(
        command_from_values(&publish),
        RtmpCommand::Publish { stream_name } if stream_name == b"movie".to_vec()
    ));

    let play = vec![
        Amf0Value::Utf8String(b"play".to_vec()),
        Amf0Value::Number(3.0f64.to_bits()),
        Amf0Value::Null,
        Amf0Value::Utf8String(b"movie".to_vec()),
    ];
    assert!(matches!(
        command_from_values(&play),
        RtmpCommand::Play { stream_name } if stream_name == b"movie".to_vec()
    ));

    let create = vec![
        Amf0Value::Utf8String(b"createStream".to_vec()),
        Amf0Value::Number(4.0f64.to_bits()),
        Amf0Value::Null,
    ];
    assert!(matches!(command_from_values(&create), RtmpCommand::CreateStream));

    let fc = vec![Amf0Value::Utf8String(b"FCPublish".to_vec())];
    assert!(matches!(command_from_values(&fc), RtmpCommand::Tolerated));

    let other = vec![Amf0Value::Utf8String(b"getStreamLength".to_vec())];
    assert!(matches!(
        command_from_values(&other),
        RtmpCommand::Unknown { name } if name == b"getStreamLength".to_vec()
    ));
}

#[test]
fn ack_tracker_emits_every_window() {
    let mut t = AckTracker::new();
    // no window set: never acknowledge
    assert!(t.on_bytes_received(1_000_000).is_none());
    let mut t2 = AckTracker::new();
    t2.set_window_ack_size(100);
    assert!(t2.on_bytes_received(50).is_none());
    assert_eq!(t2.on_bytes_received(60), Some(110));
    // the counter restarts relative to the acknowledged point
    assert!(t2.on_bytes_received(99).is_none());
    assert_eq!(t2.on_bytes_received(1), Some(210));
}
