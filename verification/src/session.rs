//! The per-connection RTMP session state machine: AMF0 command dispatch
//! driving `Handshaking` through `Connected`, `Created` and into
//! `Publishing` or `Playing`, with the control-message bookkeeping
//! (chunk size, window acknowledgement) a session performs.

use vstd::prelude::*;

use crate::amf0::{
    lemma_props_suffix_unfold, list_view, props_view, value_view, Amf0Property, Amf0SpecValue,
    Amf0Value,
};
use crate::bytesio::{bytes_eq, copy_bytes};

verus! {

/// RTMP message type id: set chunk size.
pub const MSG_TYPE_SET_CHUNK_SIZE: u8 = 1;

/// RTMP message type id: acknowledgement.
pub const MSG_TYPE_ACK: u8 = 3;

/// RTMP message type id: user control (stream begin/end, ping).
pub const MSG_TYPE_USER_CONTROL: u8 = 4;

/// RTMP message type id: window acknowledgement size.
pub const MSG_TYPE_WINDOW_ACK_SIZE: u8 = 5;

/// RTMP message type id: set peer bandwidth.
pub const MSG_TYPE_SET_PEER_BANDWIDTH: u8 = 6;

/// RTMP message type id: audio data.
pub const MSG_TYPE_AUDIO: u8 = 8;

/// RTMP message type id: video data.
pub const MSG_TYPE_VIDEO: u8 = 9;

/// RTMP message type id: AMF0 script data.
pub const MSG_TYPE_DATA_AMF0: u8 = 18;

/// RTMP message type id: AMF0 command.
pub const MSG_TYPE_COMMAND_AMF0: u8 = 20;

/// Where a session stands.
#[derive(PartialEq, Eq, Structural, Clone, Copy, Debug)]
pub enum SessionState {
    /// The handshake is not complete.
    Handshaking,
    /// `connect(app)` was accepted.
    Connected,
    /// `createStream` was answered with a stream id.
    Created,
    /// The session feeds a stream.
    Publishing,
    /// The session plays a stream.
    Playing,
    /// The session is over.
    Closed,
}

/// A decoded AMF0 command, dispatched by match.
pub enum RtmpCommand {
    /// `connect`, carrying the application name.
    Connect { app_name: Vec<u8> },
    /// `createStream`.
    CreateStream,
    /// `publish`, carrying the stream name.
    Publish { stream_name: Vec<u8> },
    /// `play`, carrying the stream name.
    Play { stream_name: Vec<u8> },
    /// `deleteStream`.
    DeleteStream,
    /// `releaseStream` or `FCPublish`: tolerated, nothing is done.
    Tolerated,
    /// Anything else: a protocol violation.
    Unknown { name: Vec<u8> },
}

/// The mathematical shape of a command.
#[verifier::ext_equal]
pub enum RtmpCommandSpec {
    Connect { app_name: Seq<u8> },
    CreateStream,
    Publish { stream_name: Seq<u8> },
    Play { stream_name: Seq<u8> },
    DeleteStream,
    Tolerated,
    Unknown { name: Seq<u8> },
}

impl View for RtmpCommand {
    type V = RtmpCommandSpec;

    open spec fn view(&self) -> RtmpCommandSpec {
        match self {
            RtmpCommand::Connect { app_name } => RtmpCommandSpec::Connect { app_name: app_name@ },
            RtmpCommand::CreateStream => RtmpCommandSpec::CreateStream,
            RtmpCommand::Publish { stream_name } => RtmpCommandSpec::Publish {
                stream_name: stream_name@,
            },
            RtmpCommand::Play { stream_name } => RtmpCommandSpec::Play {
                stream_name: stream_name@,
            },
            RtmpCommand::DeleteStream => RtmpCommandSpec::DeleteStream,
            RtmpCommand::Tolerated => RtmpCommandSpec::Tolerated,
            RtmpCommand::Unknown { name } => RtmpCommandSpec::Unknown { name: name@ },
        }
    }
}

/// What the session does in answer to a command.
#[derive(PartialEq, Eq, Debug)]
pub enum SessionAction {
    /// Answer `connect` with its `_result`.
    SendConnectResult,
    /// Answer `createStream` with this server-assigned stream id.
    SendCreateStreamResult { stream_id: u32 },
    /// Register with the hub as a publisher, then answer
    /// `onStatus(NetStream.Publish.Start)`.
    StartPublishing { stream_name: Vec<u8> },
    /// Register with the hub as a subscriber and start forwarding frames.
    StartPlaying { stream_name: Vec<u8> },
    /// Close the session.
    CloseSession,
    /// Nothing.
    Nothing,
}

/// The state a command moves a session to.
pub open spec fn next_state(s: SessionState, c: RtmpCommandSpec) -> SessionState {
    match c {
        RtmpCommandSpec::Connect { app_name } => if s is Handshaking {
            SessionState::Connected
        } else {
            SessionState::Closed
        },
        RtmpCommandSpec::CreateStream => if s is Connected {
            SessionState::Created
        } else {
            SessionState::Closed
        },
        RtmpCommandSpec::Publish { stream_name } => if s is Created {
            SessionState::Publishing
        } else {
            SessionState::Closed
        },
        RtmpCommandSpec::Play { stream_name } => if s is Created {
            SessionState::Playing
        } else {
            SessionState::Closed
        },
        RtmpCommandSpec::DeleteStream => SessionState::Closed,
        RtmpCommandSpec::Tolerated => s,
        RtmpCommandSpec::Unknown { name } => SessionState::Closed,
    }
}

/// A server session's protocol state (the transport stays outside).
pub struct ServerSession {
    /// Where the session stands.
    pub state: SessionState,
    /// The application name `connect` presented.
    pub app_name: Vec<u8>,
    /// The stream name `publish` or `play` presented.
    pub stream_name: Vec<u8>,
    /// The next stream id `createStream` hands out; at least 1, monotonic.
    pub next_stream_id: u32,
}

impl ServerSession {
    /// A fresh session, still handshaking.
    pub fn new() -> (s: ServerSession)
        ensures
            s.state is Handshaking,
            s.app_name@.len() == 0,
            s.stream_name@.len() == 0,
            s.next_stream_id == 1,
    {
        ServerSession {
            state: SessionState::Handshaking,
            app_name: Vec::new(),
            stream_name: Vec::new(),
            next_stream_id: 1,
        }
    }

    /// Applies one decoded command: the state moves as `next_state` says,
    /// and the returned action is what the session must now do. A command
    /// out of place (or unknown) closes the session; `connect` remembers
    /// the application name, `publish` and `play` the stream name, and
    /// each `createStream` hands out the next stream id.
    pub fn handle_command(&mut self, cmd: RtmpCommand) -> (action: SessionAction)
        requires
            old(self).next_stream_id < 0xffffffff,
        ensures
            final(self).state == next_state(old(self).state, cmd@),
            cmd@ matches RtmpCommandSpec::Connect { app_name } ==> old(self).state is Handshaking
                ==> (final(self).app_name@ == app_name && action
                == SessionAction::SendConnectResult),
            cmd@ is CreateStream ==> old(self).state is Connected ==> (action
                == (SessionAction::SendCreateStreamResult { stream_id: old(self).next_stream_id })
                && final(self).next_stream_id == old(self).next_stream_id + 1),
            cmd@ matches RtmpCommandSpec::Publish { stream_name } ==> old(self).state is Created
                ==> (final(self).stream_name@ == stream_name && (action matches
                SessionAction::StartPublishing { stream_name: sn } && sn@ == stream_name)),
            cmd@ matches RtmpCommandSpec::Play { stream_name } ==> old(self).state is Created ==> (
            final(self).stream_name@ == stream_name && (action matches SessionAction::StartPlaying {
                stream_name: sn,
            } && sn@ == stream_name)),
            !(cmd@ is Tolerated) && next_state(old(self).state, cmd@) is Closed ==> action
                == SessionAction::CloseSession,
            cmd@ is Tolerated ==> *final(self) == *old(self) && action == SessionAction::Nothing,
    {
        match cmd {
            RtmpCommand::Connect { app_name } => {
                if matches!(self.state, SessionState::Handshaking) {
                    self.state = SessionState::Connected;
                    self.app_name = app_name;
                    SessionAction::SendConnectResult
                } else {
                    self.state = SessionState::Closed;
                    SessionAction::CloseSession
                }
            },
            RtmpCommand::CreateStream => {
                if matches!(self.state, SessionState::Connected) {
                    self.state = SessionState::Created;
                    let id = self.next_stream_id;
                    self.next_stream_id = self.next_stream_id + 1;
                    SessionAction::SendCreateStreamResult { stream_id: id }
                } else {
                    self.state = SessionState::Closed;
                    SessionAction::CloseSession
                }
            },
            RtmpCommand::Publish { stream_name } => {
                if matches!(self.state, SessionState::Created) {
                    self.state = SessionState::Publishing;
                    let mut name_copy: Vec<u8> = Vec::new();
                    let n = stream_name.len();
                    let mut i: usize = 0;
                    while i < n
                        invariant
                            i <= n,
                            n == stream_name@.len(),
                            name_copy@ == stream_name@.take(i as int),
                        decreases n - i,
                    {
                        name_copy.push(stream_name[i]);
                        i = i + 1;
                        proof {
                            assert(name_copy@ =~= stream_name@.take(i as int));
                        }
                    }
                    proof {
                        assert(name_copy@ =~= stream_name@);
                    }
                    self.stream_name = name_copy;
                    SessionAction::StartPublishing { stream_name }
                } else {
                    self.state = SessionState::Closed;
                    SessionAction::CloseSession
                }
            },
            RtmpCommand::Play { stream_name } => {
                if matches!(self.state, SessionState::Created) {
                    self.state = SessionState::Playing;
                    let mut name_copy: Vec<u8> = Vec::new();
                    let n = stream_name.len();
                    let mut i: usize = 0;
                    while i < n
                        invariant
                            i <= n,
                            n == stream_name@.len(),
                            name_copy@ == stream_name@.take(i as int),
                        decreases n - i,
                    {
                        name_copy.push(stream_name[i]);
                        i = i + 1;
                        proof {
                            assert(name_copy@ =~= stream_name@.take(i as int));
                        }
                    }
                    proof {
                        assert(name_copy@ =~= stream_name@);
                    }
                    self.stream_name = name_copy;
                    SessionAction::StartPlaying { stream_name }
                } else {
                    self.state = SessionState::Closed;
                    SessionAction::CloseSession
                }
            },
            RtmpCommand::DeleteStream => {
                self.state = SessionState::Closed;
                SessionAction::CloseSession
            },
            RtmpCommand::Tolerated => SessionAction::Nothing,
            RtmpCommand::Unknown { name: _ } => {
                self.state = SessionState::Closed;
                SessionAction::CloseSession
            },
        }
    }
}

/// The byte string `connect`.
pub open spec fn cmd_connect() -> Seq<u8> {
    seq![0x63u8, 0x6fu8, 0x6eu8, 0x6eu8, 0x65u8, 0x63u8, 0x74u8]
}

/// The byte string `createStream`.
pub open spec fn cmd_create_stream() -> Seq<u8> {
    seq![0x63u8, 0x72u8, 0x65u8, 0x61u8, 0x74u8, 0x65u8, 0x53u8, 0x74u8, 0x72u8, 0x65u8, 0x61u8, 0x6du8]
}

/// The byte string `publish`.
pub open spec fn cmd_publish() -> Seq<u8> {
    seq![0x70u8, 0x75u8, 0x62u8, 0x6cu8, 0x69u8, 0x73u8, 0x68u8]
}

/// The byte string `play`.
pub open spec fn cmd_play() -> Seq<u8> {
    seq![0x70u8, 0x6cu8, 0x61u8, 0x79u8]
}

/// The byte string `deleteStream`.
pub open spec fn cmd_delete_stream() -> Seq<u8> {
    seq![0x64u8, 0x65u8, 0x6cu8, 0x65u8, 0x74u8, 0x65u8, 0x53u8, 0x74u8, 0x72u8, 0x65u8, 0x61u8, 0x6du8]
}

/// The byte string `releaseStream`.
pub open spec fn cmd_release_stream() -> Seq<u8> {
    seq![
        0x72u8,
        0x65u8,
        0x6cu8,
        0x65u8,
        0x61u8,
        0x73u8,
        0x65u8,
        0x53u8,
        0x74u8,
        0x72u8,
        0x65u8,
        0x61u8,
        0x6du8,
    ]
}

/// The byte string `FCPublish`.
pub open spec fn cmd_fcpublish() -> Seq<u8> {
    seq![0x46u8, 0x43u8, 0x50u8, 0x75u8, 0x62u8, 0x6cu8, 0x69u8, 0x73u8, 0x68u8]
}

/// The command a decoded AMF0 value list means. The first value names the
/// command; `connect` takes its application name from the `app` property
/// of the third value (the command object); `publish` and `play` take the
/// stream name from their fourth value.
pub open spec fn spec_command_of(vals: Seq<Amf0SpecValue>) -> RtmpCommandSpec {
    if vals.len() < 1 || !(vals[0] is Utf8String) {
        RtmpCommandSpec::Unknown { name: Seq::<u8>::empty() }
    } else {
        let name = vals[0]->Utf8String_0;
        if name == cmd_connect() {
            if vals.len() >= 3 && vals[2] is Object && obj_str_prop(
                vals[2]->Object_0,
                seq![0x61u8, 0x70u8, 0x70u8],
            ) is Some {
                RtmpCommandSpec::Connect {
                    app_name: obj_str_prop(vals[2]->Object_0, seq![0x61u8, 0x70u8, 0x70u8]).unwrap(),
                }
            } else {
                RtmpCommandSpec::Connect { app_name: Seq::<u8>::empty() }
            }
        } else if name == cmd_create_stream() {
            RtmpCommandSpec::CreateStream
        } else if name == cmd_publish() {
            if vals.len() >= 4 && vals[3] is Utf8String {
                RtmpCommandSpec::Publish { stream_name: vals[3]->Utf8String_0 }
            } else {
                RtmpCommandSpec::Publish { stream_name: Seq::<u8>::empty() }
            }
        } else if name == cmd_play() {
            if vals.len() >= 4 && vals[3] is Utf8String {
                RtmpCommandSpec::Play { stream_name: vals[3]->Utf8String_0 }
            } else {
                RtmpCommandSpec::Play { stream_name: Seq::<u8>::empty() }
            }
        } else if name == cmd_delete_stream() {
            RtmpCommandSpec::DeleteStream
        } else if name == cmd_release_stream() || name == cmd_fcpublish() {
            RtmpCommandSpec::Tolerated
        } else {
            RtmpCommandSpec::Unknown { name: name }
        }
    }
}

/// The first string value of the property `key` in an object's property
/// list, if any.
pub open spec fn obj_str_prop(props: Seq<(Seq<u8>, Amf0SpecValue)>, key: Seq<u8>) -> Option<
    Seq<u8>,
>
    decreases props.len(),
{
    if props.len() == 0 {
        None
    } else if props[0].0 == key && props[0].1 is Utf8String {
        Some(props[0].1->Utf8String_0)
    } else {
        obj_str_prop(props.drop_first(), key)
    }
}


/// Looks the string value of `key` up among the properties from `i` on.
fn obj_str_prop_exec(props: &Vec<Amf0Property>, key: &[u8], i: usize) -> (r: Option<Vec<u8>>)
    requires
        i <= props@.len(),
    ensures
        r matches Some(v) ==> obj_str_prop(props_view(props@.skip(i as int)), key@) == Some(v@),
        r is None ==> obj_str_prop(props_view(props@.skip(i as int)), key@) is None,
    decreases props@.len() - i,
{
    proof {
        if i < props@.len() {
            lemma_props_suffix_unfold(props@, i as int);
            let q = props_view(props@.skip(i as int));
            crate::amf0::lemma_props_view_len(props@.skip(i as int));
            assert(q[0] == (props@[i as int].key@, value_view(props@[i as int].value)));
            assert(q.drop_first() =~= props_view(props@.skip(i as int + 1)));
        } else {
            assert(props@.skip(i as int) =~= Seq::<Amf0Property>::empty());
        }
    }
    if i < props.len() {
        let p = &props[i];
        if bytes_eq(&p.key, key) {
            match &p.value {
                Amf0Value::Utf8String(v) => {
                    return Some(copy_bytes(v));
                },
                _ => {},
            }
        }
        obj_str_prop_exec(props, key, i + 1)
    } else {
        None
    }
}

/// Decodes the command an AMF0 value list carries, exactly as
/// `spec_command_of` reads it.
pub fn command_from_values(vals: &Vec<Amf0Value>) -> (r: RtmpCommand)
    ensures
        r@ == spec_command_of(list_view(vals@)),
{
    proof {
        crate::amf0::lemma_list_view_len(vals@);
        if vals@.len() > 0 {
            crate::amf0::lemma_list_suffix_unfold(vals@, 0);
            assert(vals@.skip(0) =~= vals@);
            assert(list_view(vals@)[0] == value_view(vals@[0]));
        }
        if vals@.len() > 2 {
            assert(list_view(vals@)[2] == value_view(vals@[2])) by {
                lemma_list_view_index(vals@, 2);
            }
        }
        if vals@.len() > 3 {
            assert(list_view(vals@)[3] == value_view(vals@[3])) by {
                lemma_list_view_index(vals@, 3);
            }
        }
    }
    if vals.len() < 1 {
        return RtmpCommand::Unknown { name: Vec::new() };
    }
    let name: &Vec<u8> = match &vals[0] {
        Amf0Value::Utf8String(n) => n,
        _ => {
            return RtmpCommand::Unknown { name: Vec::new() };
        },
    };
    let connect_name: [u8; 7] = [0x63, 0x6f, 0x6e, 0x6e, 0x65, 0x63, 0x74];
    let create_name: [u8; 12] = [
        0x63, 0x72, 0x65, 0x61, 0x74, 0x65, 0x53, 0x74, 0x72, 0x65, 0x61, 0x6d,
    ];
    let publish_name: [u8; 7] = [0x70, 0x75, 0x62, 0x6c, 0x69, 0x73, 0x68];
    let play_name: [u8; 4] = [0x70, 0x6c, 0x61, 0x79];
    let delete_name: [u8; 12] = [
        0x64, 0x65, 0x6c, 0x65, 0x74, 0x65, 0x53, 0x74, 0x72, 0x65, 0x61, 0x6d,
    ];
    let release_name: [u8; 13] = [
        0x72, 0x65, 0x6c, 0x65, 0x61, 0x73, 0x65, 0x53, 0x74, 0x72, 0x65, 0x61, 0x6d,
    ];
    let fcpublish_name: [u8; 9] = [0x46, 0x43, 0x50, 0x75, 0x62, 0x6c, 0x69, 0x73, 0x68];
    proof {
        assert(connect_name@ =~= cmd_connect());
        assert(create_name@ =~= cmd_create_stream());
        assert(publish_name@ =~= cmd_publish());
        assert(play_name@ =~= cmd_play());
        assert(delete_name@ =~= cmd_delete_stream());
        assert(release_name@ =~= cmd_release_stream());
        assert(fcpublish_name@ =~= cmd_fcpublish());
    }
    if bytes_eq(name, connect_name.as_slice()) {
        if vals.len() >= 3 {
            match &vals[2] {
                Amf0Value::Object(props) => {
                    let app_key: [u8; 3] = [0x61, 0x70, 0x70];
                    proof {
                        assert(app_key@ =~= seq![0x61u8, 0x70u8, 0x70u8]);
                        assert(props@.skip(0) =~= props@);
                    }
                    match obj_str_prop_exec(props, app_key.as_slice(), 0) {
                        Some(app_name) => {
                            return RtmpCommand::Connect { app_name };
                        },
                        None => {
                            return RtmpCommand::Connect { app_name: Vec::new() };
                        },
                    }
                },
                _ => {
                    return RtmpCommand::Connect { app_name: Vec::new() };
                },
            }
        }
        return RtmpCommand::Connect { app_name: Vec::new() };
    }
    if bytes_eq(name, create_name.as_slice()) {
        return RtmpCommand::CreateStream;
    }
    if bytes_eq(name, publish_name.as_slice()) {
        if vals.len() >= 4 {
            match &vals[3] {
                Amf0Value::Utf8String(sn) => {
                    return RtmpCommand::Publish { stream_name: copy_bytes(sn) };
                },
                _ => {},
            }
        }
        return RtmpCommand::Publish { stream_name: Vec::new() };
    }
    if bytes_eq(name, play_name.as_slice()) {
        if vals.len() >= 4 {
            match &vals[3] {
                Amf0Value::Utf8String(sn) => {
                    return RtmpCommand::Play { stream_name: copy_bytes(sn) };
                },
                _ => {},
            }
        }
        return RtmpCommand::Play { stream_name: Vec::new() };
    }
    if bytes_eq(name, delete_name.as_slice()) {
        return RtmpCommand::DeleteStream;
    }
    if bytes_eq(name, release_name.as_slice()) || bytes_eq(name, fcpublish_name.as_slice()) {
        return RtmpCommand::Tolerated;
    }
    RtmpCommand::Unknown { name: copy_bytes(name) }
}

/// `list_view` is pointwise the value view.
pub proof fn lemma_list_view_index(vals: Seq<Amf0Value>, i: int)
    requires
        0 <= i < vals.len(),
    ensures
        list_view(vals).len() == vals.len(),
        list_view(vals)[i] == value_view(vals[i]),
    decreases i,
{
    crate::amf0::lemma_list_view_len(vals);
    if i == 0 {
        crate::amf0::lemma_list_view_len(vals.subrange(1, vals.len() as int));
    } else {
        lemma_list_view_index(vals.subrange(1, vals.len() as int), i - 1);
        crate::amf0::lemma_list_view_len(vals.subrange(1, vals.len() as int));
        assert(vals.subrange(1, vals.len() as int)[i - 1] == vals[i]);
    }
}

/// Tracks bytes received and says when an acknowledgement is owed: one
/// every `window_ack_size` bytes.
pub struct AckTracker {
    /// The window the peer asked for; zero means never acknowledge.
    pub window_ack_size: u32,
    /// Bytes received in all.
    pub received: u64,
    /// Bytes received when the last acknowledgement was sent.
    pub last_acked: u64,
}

impl AckTracker {
    /// A tracker that never acknowledges until a window is set.
    pub fn new() -> (t: AckTracker)
        ensures
            t.window_ack_size == 0,
            t.received == 0,
            t.last_acked == 0,
    {
        AckTracker { window_ack_size: 0, received: 0, last_acked: 0 }
    }

    /// Adopts the window size from the peer's `WindowAckSize` message.
    pub fn set_window_ack_size(&mut self, n: u32)
        ensures
            final(self).window_ack_size == n,
            final(self).received == old(self).received,
            final(self).last_acked == old(self).last_acked,
    {
        self.window_ack_size = n;
    }

    /// Counts received bytes; exactly when a full window has gone by since
    /// the last acknowledgement, one is owed, carrying the low 32 bits of
    /// the running total.
    pub fn on_bytes_received(&mut self, n: u32) -> (ack: Option<u32>)
        requires
            old(self).received + n <= u64::MAX,
            old(self).last_acked <= old(self).received,
        ensures
            final(self).window_ack_size == old(self).window_ack_size,
            final(self).received == old(self).received + n,
            ack is Some <==> (old(self).window_ack_size > 0 && old(self).received + n - old(
                self,
            ).last_acked >= old(self).window_ack_size),
            ack matches Some(v) ==> v == (old(self).received + n) as u32 && final(self).last_acked
                == final(self).received,
            ack is None ==> final(self).last_acked == old(self).last_acked,
    {
        self.received = self.received + (n as u64);
        if self.window_ack_size > 0 && self.received - self.last_acked >= (
        self.window_ack_size as u64) {
            self.last_acked = self.received;
            Some(self.received as u32)
        } else {
            None
        }
    }
}

} // verus!
