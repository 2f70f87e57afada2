//! HTTP-FLV egress: request validation (token, nonce) and the per-request
//! FLV remux state.

use vstd::prelude::*;

use crate::amf0::{dec_value, Amf0SpecValue};
use crate::bytesio::{be4, bytes_eq, copy_bytes};
use crate::flv::{
    flv_header_bytes, tag_header_bytes, FlvMuxer, HEADER_LENGTH, TAG_TYPE_AUDIO,
    TAG_TYPE_SCRIPT_DATA_AMF, TAG_TYPE_VIDEO,
};
use crate::gop::{FrameData, FrameDataSpec};

verus! {

/// Error raised while serving one HTTP-FLV request.
#[derive(Debug)]
pub struct HttpFLvError {
    pub value: HttpFLvErrorValue,
}

/// The kinds of HTTP-FLV errors.
#[derive(Debug)]
pub enum HttpFLvErrorValue {
    /// Unspecified server error.
    Error,
    /// The FLV muxer failed.
    MuxerError,
    /// An AMF0 value could not be written.
    Amf0WriteError,
    /// The HTTP response channel rejected data.
    MpscSendError,
    /// The hub rejected or failed an event.
    ChannelError,
    /// The hub's reply channel closed before answering.
    RecvError,
    /// The hub's data channel closed.
    ChannelRecvError,
    /// Frame data could not be sent to the hub.
    SendFrameDataErr,
    /// A recording file could not be written.
    IOError,
    /// The server demands a token and the request carries none.
    NoToken,
    /// The request's token or nonce does not match.
    Forbidden,
    /// The recording target file already exists.
    FileExist,
    /// The request's nonce exists but has expired.
    InvalidNonce,
}

/// The short description of each HTTP-FLV error kind, for logging.
pub open spec fn describe_of(v: HttpFLvErrorValue) -> Seq<char> {
    match v {
        HttpFLvErrorValue::Error => "server error"@,
        HttpFLvErrorValue::MuxerError => "flv muxer error"@,
        HttpFLvErrorValue::Amf0WriteError => "amf write error"@,
        HttpFLvErrorValue::MpscSendError => "send error"@,
        HttpFLvErrorValue::ChannelError => "event execute error"@,
        HttpFLvErrorValue::RecvError => "oneshot receiver error"@,
        HttpFLvErrorValue::ChannelRecvError => "channel recv error"@,
        HttpFLvErrorValue::SendFrameDataErr => "send frame data error"@,
        HttpFLvErrorValue::IOError => "write file error"@,
        HttpFLvErrorValue::NoToken => "no token"@,
        HttpFLvErrorValue::Forbidden => "forbidden"@,
        HttpFLvErrorValue::FileExist => "file exist"@,
        HttpFLvErrorValue::InvalidNonce => "invalid nonce"@,
    }
}

impl HttpFLvError {
    /// A short description of the error, for logging.
    pub fn describe(&self) -> (s: &'static str)
        ensures
            s@ == describe_of(self.value),
    {
        match self.value {
            HttpFLvErrorValue::Error => "server error",
            HttpFLvErrorValue::MuxerError => "flv muxer error",
            HttpFLvErrorValue::Amf0WriteError => "amf write error",
            HttpFLvErrorValue::MpscSendError => "send error",
            HttpFLvErrorValue::ChannelError => "event execute error",
            HttpFLvErrorValue::RecvError => "oneshot receiver error",
            HttpFLvErrorValue::ChannelRecvError => "channel recv error",
            HttpFLvErrorValue::SendFrameDataErr => "send frame data error",
            HttpFLvErrorValue::IOError => "write file error",
            HttpFLvErrorValue::NoToken => "no token",
            HttpFLvErrorValue::Forbidden => "forbidden",
            HttpFLvErrorValue::FileExist => "file exist",
            HttpFLvErrorValue::InvalidNonce => "invalid nonce",
        }
    }
}

/// Checks a subscriber's `token` query parameter against the token the
/// server was configured with, if any.
///
/// Accepts exactly when the server holds no token, or the request carries
/// one equal to it; `NoToken` when one is demanded and none came;
/// `Forbidden` when one came and differs.
pub fn validate_token(server_token: &Option<String>, token: &Option<String>) -> (r: Result<
    (),
    HttpFLvError,
>)
    ensures
        r is Ok <==> (server_token is None || (token is Some
            && token.unwrap()@ == server_token.unwrap()@)),
        server_token is Some && token is None ==> (r matches Err(e) && e.value is NoToken),
        server_token is Some && token is Some && token.unwrap()@ != server_token.unwrap()@ ==> (
        r matches Err(e) && e.value is Forbidden),
{
    if let Some(server_token) = server_token {
        match token {
            Some(token) => {
                if !token.eq(server_token) {
                    return Err(HttpFLvError { value: HttpFLvErrorValue::Forbidden });
                }
            },
            None => {
                return Err(HttpFLvError { value: HttpFLvErrorValue::NoToken });
            },
        }
    }
    Ok(())
}


/// The byte string `@setDataFrame`, the wrapper publishers put around
/// stream metadata.
pub open spec fn set_data_frame_bytes() -> Seq<u8> {
    seq![
        0x40u8,
        0x73u8,
        0x65u8,
        0x74u8,
        0x44u8,
        0x61u8,
        0x74u8,
        0x61u8,
        0x46u8,
        0x72u8,
        0x61u8,
        0x6du8,
        0x65u8,
    ]
}

/// A metadata body with any leading `@setDataFrame` AMF0 string stripped.
pub open spec fn spec_metadata_body(data: Seq<u8>) -> Seq<u8> {
    match dec_value(data) {
        Some((v, n)) => if v == Amf0SpecValue::Utf8String(set_data_frame_bytes()) {
            data.skip(n)
        } else {
            data
        },
        None => data,
    }
}

/// Strips the leading `@setDataFrame` AMF0 string from a metadata body,
/// when one is there.
pub fn remove_set_data_frame(data: &Vec<u8>) -> (r: Vec<u8>)
    ensures
        r@ == spec_metadata_body(data@),
{
    let mut reader = crate::bytesio::BytesReader::new(copy_bytes(data));
    match crate::amf0::amf0_read_value(&mut reader) {
        Ok(v) => {
            let is_marker = match &v {
                crate::amf0::Amf0Value::Utf8String(sbytes) => {
                    let expected: [u8; 13] = [
                        0x40, 0x73, 0x65, 0x74, 0x44, 0x61, 0x74, 0x61, 0x46, 0x72, 0x61, 0x6d,
                        0x65,
                    ];
                    let eq = bytes_eq(sbytes, expected.as_slice());
                    proof {
                        assert(expected@ =~= set_data_frame_bytes());
                    }
                    eq
                },
                _ => false,
            };
            if is_marker {
                let n = reader.remaining();
                let rest = match reader.read_bytes(n) {
                    Ok(bytes) => bytes,
                    Err(_) => Vec::new(),
                };
                proof {
                    let dv = dec_value(data@);
                    assert(dv matches Some(p) && p.0 == Amf0SpecValue::Utf8String(
                        set_data_frame_bytes(),
                    ));
                }
                rest
            } else {
                copy_bytes(data)
            }
        },
        Err(_) => copy_bytes(data),
    }
}

/// The FLV bytes one frame adds to the HTTP-FLV stream: an 11-byte tag
/// header, the body, and the previous-tag-size trailer. A metadata frame's
/// body is first stripped of its `@setDataFrame` wrapper; a frame of no
/// media kind becomes an empty tag of type zero, as a visible sentinel.
pub open spec fn frame_tag_bytes(f: FrameDataSpec) -> Seq<u8> {
    match f {
        FrameDataSpec::Audio { timestamp, data } => tag_header_bytes(
            TAG_TYPE_AUDIO,
            data.len() as u32,
            timestamp,
        ) + data + be4((data.len() + 11) as u32),
        FrameDataSpec::Video { timestamp, data } => tag_header_bytes(
            TAG_TYPE_VIDEO,
            data.len() as u32,
            timestamp,
        ) + data + be4((data.len() + 11) as u32),
        FrameDataSpec::MetaData { timestamp, data } => {
            let body = spec_metadata_body(data);
            tag_header_bytes(TAG_TYPE_SCRIPT_DATA_AMF, body.len() as u32, timestamp) + body + be4(
                (body.len() + 11) as u32,
            )
        },
        FrameDataSpec::MediaInfo { timestamp, data } => tag_header_bytes(0, 0, 0) + be4(11),
    }
}

/// One HTTP-FLV response in flight: the FLV remux state and the rule that
/// only the first zero-timestamp video tag is kept.
pub struct HttpFlv {
    /// The FLV muxer whose buffer the response is flushed from.
    pub muxer: FlvMuxer,
    /// Whether the first zero-timestamp video tag is still to come.
    pub first_video_metadata: bool,
}

impl HttpFlv {
    /// A fresh response stream.
    pub fn new() -> (h: HttpFlv)
        ensures
            h.muxer.writer@ == Seq::<u8>::empty(),
            h.muxer.first_flag,
            h.muxer.timestamp_start == 0,
            h.muxer.timestamp_delta == 0,
            h.first_video_metadata,
    {
        HttpFlv { muxer: FlvMuxer::new(), first_video_metadata: true }
    }

    /// Begins the stream: the FLV file header and the zero previous-tag
    /// size.
    pub fn write_stream_header(&mut self)
        ensures
            final(self).muxer.writer@ == old(self).muxer.writer@ + flv_header_bytes() + be4(0),
            final(self).first_video_metadata == old(self).first_video_metadata,
    {
        self.muxer.write_flv_header();
        self.muxer.write_previous_tag_size(0);
    }

    /// Muxes one frame into the response. A zero-timestamp video tag after
    /// the first is dropped (it would be a repeated parameter set); every
    /// other frame becomes one complete FLV tag.
    pub fn write_flv_tag(&mut self, channel_data: FrameData) -> (r: Result<(), HttpFLvError>)
        requires
            (channel_data@ matches FrameDataSpec::Audio { timestamp, data } ==> data.len()
                < 0xffffff),
            (channel_data@ matches FrameDataSpec::Video { timestamp, data } ==> data.len()
                < 0xffffff),
            (channel_data@ matches FrameDataSpec::MetaData { timestamp, data } ==> data.len()
                < 0xffffff),
    ensures
            r is Ok,
            ({
                let skipped = channel_data@ matches FrameDataSpec::Video { timestamp, data }
                    && timestamp == 0 && !old(self).first_video_metadata;
                &&& (skipped ==> *final(self) == *old(self))
                &&& (!skipped ==> final(self).muxer.writer@ == old(self).muxer.writer@
                    + frame_tag_bytes(channel_data@))
            }),
            (channel_data@ matches FrameDataSpec::Video { timestamp, data } && timestamp == 0
                ==> !final(self).first_video_metadata),
            !(channel_data@ matches FrameDataSpec::Video { timestamp, data } && timestamp == 0)
                ==> final(self).first_video_metadata == old(self).first_video_metadata,
    {
        let (common_data, common_timestamp, tag_type): (Vec<u8>, u32, u8) = match channel_data {
            FrameData::Audio { timestamp, data } => (data, timestamp, TAG_TYPE_AUDIO),
            FrameData::Video { timestamp, data } => (data, timestamp, TAG_TYPE_VIDEO),
            FrameData::MetaData { timestamp, data } => {
                let body = remove_set_data_frame(&data);
                (body, timestamp, TAG_TYPE_SCRIPT_DATA_AMF)
            },
            FrameData::MediaInfo { timestamp: _, data: _ } => (Vec::new(), 0, 0),
        };
        // only the first zero-timestamp video tag is kept
        if common_timestamp == 0 && tag_type == TAG_TYPE_VIDEO {
            if self.first_video_metadata {
                self.first_video_metadata = false;
            } else {
                return Ok(());
            }
        }
        let common_data_len = common_data.len() as u32;
        self.muxer.write_flv_tag_header(tag_type, common_data_len, common_timestamp);
        self.muxer.write_flv_tag_body(&common_data);
        self.muxer.write_previous_tag_size(common_data_len + HEADER_LENGTH);
        proof {
            assert(self.muxer.writer@ =~= old(self).muxer.writer@ + frame_tag_bytes(
                channel_data@,
            ));
        }
        Ok(())
    }

    /// Takes the muxed bytes accumulated so far, to be sent as the next
    /// response body piece (and appended to a recording, when one is on).
    pub fn flush_response_data(&mut self) -> (data: Vec<u8>)
        ensures
            data@ == old(self).muxer.writer@,
            final(self).muxer.writer@ == Seq::<u8>::empty(),
            final(self).muxer.first_flag == old(self).muxer.first_flag,
            final(self).muxer.timestamp_start == old(self).muxer.timestamp_start,
            final(self).muxer.timestamp_delta == old(self).muxer.timestamp_delta,
            final(self).first_video_metadata == old(self).first_video_metadata,
    {
        self.muxer.writer.extract_current_bytes()
    }
}

/// Whether a media-loop retry budget is spent (more than ten tries).
pub fn retry_limit_reached(retry_count: u32) -> (r: bool)
    ensures
        r == (retry_count > 10),
{
    retry_count > 10
}


/// The first nonce entry at or after `i` with this value, or the length.
pub open spec fn nonce_index_from(entries: Seq<(u128, i64)>, nonce: u128, i: int) -> int
    decreases entries.len() - i,
{
    if i < 0 || i >= entries.len() {
        entries.len() as int
    } else if entries[i].0 == nonce {
        i
    } else {
        nonce_index_from(entries, nonce, i + 1)
    }
}

/// `nonce_index_from` points at a match or the end, with none between.
pub proof fn lemma_nonce_index_from(entries: Seq<(u128, i64)>, nonce: u128, i: int)
    requires
        0 <= i <= entries.len(),
    ensures
        i <= nonce_index_from(entries, nonce, i) <= entries.len(),
        nonce_index_from(entries, nonce, i) < entries.len() ==> entries[nonce_index_from(
            entries,
            nonce,
            i,
        )].0 == nonce,
        forall|t: int|
            i <= t < nonce_index_from(entries, nonce, i) ==> (#[trigger] entries[t]).0 != nonce,
    decreases entries.len() - i,
{
    if i < entries.len() && entries[i].0 != nonce {
        lemma_nonce_index_from(entries, nonce, i + 1);
    }
}

/// How long a nonce stays valid: ten minutes, in milliseconds.
pub const NONCE_LIFETIME_MS: i64 = 600000;

/// Relies on uuid's `Uuid::new_v4`: 128 random bits. Random, so nothing is
/// promised of the value.
#[verifier::external_body]
pub(crate) fn new_nonce_u128() -> (r: u128) {
    uuid::Uuid::new_v4().as_u128()
}

/// Relies on chrono's `Local::now().timestamp_millis()`: the wall clock in
/// milliseconds since the epoch. A clock reading, so nothing is promised
/// of the value.
#[verifier::external_body]
pub(crate) fn now_millis() -> (r: i64) {
    chrono::Local::now().timestamp_millis()
}

/// The single-use nonces handed out for egress authentication, each with
/// the absolute time it expires.
pub struct NonceStore {
    /// Nonce and expiry pairs, oldest first.
    pub entries: Vec<(u128, i64)>,
}

impl NonceStore {
    /// An empty store.
    pub fn new() -> (s: NonceStore)
        ensures
            s.entries@.len() == 0,
    {
        NonceStore { entries: Vec::new() }
    }

    /// Records a nonce valid for ten minutes from `now_ms` (saturating at
    /// the end of time).
    pub fn add_nonce(&mut self, nonce: u128, now_ms: i64)
        ensures
            final(self).entries@ == old(self).entries@.push(
                (
                    nonce,
                    if now_ms <= i64::MAX - NONCE_LIFETIME_MS {
                        (now_ms + NONCE_LIFETIME_MS) as i64
                    } else {
                        i64::MAX
                    },
                ),
            ),
    {
        let expiry: i64 = if now_ms <= i64::MAX - NONCE_LIFETIME_MS {
            now_ms + NONCE_LIFETIME_MS
        } else {
            i64::MAX
        };
        self.entries.push((nonce, expiry));
    }

    /// Mints a fresh random nonce valid for ten minutes from now.
    pub fn gen_nonce(&mut self) -> (nonce: u128)
        ensures
            final(self).entries@.len() == old(self).entries@.len() + 1,
            final(self).entries@.take(old(self).entries@.len() as int) == old(self).entries@,
            final(self).entries@.last().0 == nonce,
    {
        let nonce = new_nonce_u128();
        let now = now_millis();
        let ghost before = self.entries@;
        self.add_nonce(nonce, now);
        proof {
            assert(self.entries@.take(before.len() as int) =~= before);
        }
        nonce
    }

    /// Checks and spends a nonce: the request must carry one, it must be
    /// in the store (it is removed either way, nonces are single use), and
    /// it must not have expired. `Forbidden` when absent or unknown,
    /// `InvalidNonce` when expired.
    pub fn validate_nonce(&mut self, nonce: Option<u128>, now_ms: i64) -> (r: Result<
        (),
        HttpFLvError,
    >)
        ensures
            nonce is None ==> (r matches Err(e) && e.value is Forbidden && final(self).entries@
                == old(self).entries@),
            nonce matches Some(nv) ==> ({
                let i = nonce_index_from(old(self).entries@, nv, 0);
                &&& (i == old(self).entries@.len() ==> (r matches Err(e) && e.value is Forbidden
                    && final(self).entries@ == old(self).entries@))
                &&& (i < old(self).entries@.len() ==> ({
                    &&& final(self).entries@ == old(self).entries@.remove(i)
                    &&& (old(self).entries@[i].1 < now_ms ==> (r matches Err(e) && e.value
                        is InvalidNonce))
                    &&& (old(self).entries@[i].1 >= now_ms ==> r is Ok)
                }))
            }),
    {
        let nv = match nonce {
            Some(nv) => nv,
            None => {
                return Err(HttpFLvError { value: HttpFLvErrorValue::Forbidden });
            },
        };
        proof {
            lemma_nonce_index_from(self.entries@, nv, 0);
        }
        let n = self.entries.len();
        let mut i: usize = 0;
        while i < n
            invariant_except_break
                0 <= i <= n,
                n == self.entries@.len(),
                nonce_index_from(self.entries@, nv, 0) == nonce_index_from(
                    self.entries@,
                    nv,
                    i as int,
                ),
            ensures
                0 <= i <= n,
                n == self.entries@.len(),
                i < n ==> nonce_index_from(self.entries@, nv, 0) == i as int,
                i == n ==> nonce_index_from(self.entries@, nv, 0) == n as int,
            decreases n - i,
        {
            if self.entries[i].0 == nv {
                proof {
                    assert(nonce_index_from(self.entries@, nv, i as int) == i);
                }
                break ;
            }
            i = i + 1;
            proof {
                if i == n {
                    assert(nonce_index_from(self.entries@, nv, i as int) == n);
                }
            }
        }
        if i == n {
            return Err(HttpFLvError { value: HttpFLvErrorValue::Forbidden });
        }
        let (_nv, expiry) = self.entries.remove(i);
        if expiry < now_ms {
            Err(HttpFLvError { value: HttpFLvErrorValue::InvalidNonce })
        } else {
            Ok(())
        }
    }

    /// Drops every entry that has expired by `now_ms`, bounding memory.
    pub fn prune_expired(&mut self, now_ms: i64)
        ensures
            forall|t: int|
                0 <= t < final(self).entries@.len() ==> (#[trigger] final(self).entries@[t]).1
                    >= now_ms,
    {
        let mut kept: Vec<(u128, i64)> = Vec::new();
        let n = self.entries.len();
        let mut i: usize = 0;
        while i < n
            invariant
                i <= n,
                n == self.entries@.len(),
                forall|t: int| 0 <= t < kept@.len() ==> (#[trigger] kept@[t]).1 >= now_ms,
            decreases n - i,
        {
            let e = self.entries[i];
            if e.1 >= now_ms {
                kept.push(e);
            }
            i = i + 1;
        }
        self.entries = kept;
    }
}

/// Whether `piece` is `key=value` with a non-empty value free of `=`.
pub open spec fn is_kv(piece: Seq<u8>, key: Seq<u8>) -> bool {
    &&& piece.len() > key.len() + 1
    &&& piece.take(key.len() as int) == key
    &&& piece[key.len() as int] == 61
    &&& forall|t: int| key.len() + 1 <= t < piece.len() ==> piece[t] != 61
}

/// The value of the last `key=value` among the pieces, if any; a later
/// assignment overrides an earlier one.
pub open spec fn param_value(pieces: Seq<Seq<u8>>, key: Seq<u8>) -> Option<Seq<u8>>
    decreases pieces.len(),
{
    if pieces.len() == 0 {
        None
    } else if is_kv(pieces.last(), key) {
        Some(pieces.last().skip(key.len() as int + 1))
    } else {
        param_value(pieces.drop_last(), key)
    }
}

/// The pieces joined back with the separator between them.
pub open spec fn join_with(pieces: Seq<Seq<u8>>, sep: u8) -> Seq<u8>
    decreases pieces.len(),
{
    if pieces.len() == 0 {
        Seq::<u8>::empty()
    } else if pieces.len() == 1 {
        pieces[0]
    } else {
        pieces[0] + seq![sep] + join_with(pieces.drop_first(), sep)
    }
}

/// Splits on a separator byte: the pieces, none holding the separator,
/// join back to the input. Splitting the empty input gives one empty
/// piece.
pub fn split_bytes(s: &[u8], sep: u8) -> (pieces: Vec<Vec<u8>>)
    ensures
        pieces@.len() >= 1,
        join_with(pieces@.map(|i: int, p: Vec<u8>| p@), sep) == s@,
        forall|i: int, t: int|
            0 <= i < pieces@.len() && 0 <= t < pieces@[i]@.len() ==> #[trigger] pieces@[i]@[t]
                != sep,
{
    let mut pieces: Vec<Vec<u8>> = Vec::new();
    let mut cur: Vec<u8> = Vec::new();
    let n = s.len();
    let mut i: usize = 0;
    while i < n
        invariant
            i <= n,
            n == s@.len(),
            forall|a: int, t: int|
                0 <= a < pieces@.len() && 0 <= t < pieces@[a]@.len() ==> #[trigger] pieces@[a]@[t]
                    != sep,
            forall|t: int| 0 <= t < cur@.len() ==> cur@[t] != sep,
            join_with(pieces@.map(|a: int, p: Vec<u8>| p@).push(cur@), sep) == s@.take(i as int),
        decreases n - i,
    {
        let ghost pview = pieces@.map(|a: int, p: Vec<u8>| p@);
        if s[i] == sep {
            pieces.push(cur);
            cur = Vec::new();
            proof {
                assert(pieces@.map(|a: int, p: Vec<u8>| p@) =~= pview.push(
                    pieces@.last()@,
                ));
                lemma_join_with_push(pview.push(pieces@.last()@), cur@, sep);
                assert(join_with(
                    pieces@.map(|a: int, p: Vec<u8>| p@).push(cur@),
                    sep,
                ) =~= s@.take(i as int + 1));
            }
        } else {
            let ghost cur0 = cur@;
            cur.push(s[i]);
            proof {
                lemma_join_with_last_push(pview, cur0, s@[i as int], sep);
                assert(pieces@.map(|a: int, p: Vec<u8>| p@) =~= pview);
                assert(join_with(
                    pieces@.map(|a: int, p: Vec<u8>| p@).push(cur@),
                    sep,
                ) =~= s@.take(i as int + 1));
            }
        }
        i = i + 1;
    }
    let ghost pview_final = pieces@.map(|a: int, p: Vec<u8>| p@);
    let ghost cur_final = cur@;
    pieces.push(cur);
    proof {
        assert(s@.take(n as int) =~= s@);
        assert(pieces@.map(|a: int, p: Vec<u8>| p@) =~= pview_final.push(cur_final));
    }
    pieces
}

/// Appending an empty piece appends one separator.
proof fn lemma_join_with_push(pieces: Seq<Seq<u8>>, last: Seq<u8>, sep: u8)
    requires
        pieces.len() >= 1,
        last.len() == 0,
    ensures
        join_with(pieces.push(last), sep) == join_with(pieces, sep) + seq![sep],
    decreases pieces.len(),
{
    if pieces.len() == 1 {
        assert(pieces.push(last).drop_first() =~= seq![last]);
        assert(join_with(seq![last], sep) =~= last);
        assert(join_with(pieces.push(last), sep) =~= pieces[0] + seq![sep] + last);
        assert(join_with(pieces.push(last), sep) =~= join_with(pieces, sep) + seq![sep]);
    } else {
        assert(pieces.push(last).drop_first() =~= pieces.drop_first().push(last));
        lemma_join_with_push(pieces.drop_first(), last, sep);
        assert(join_with(pieces.push(last), sep) =~= join_with(pieces, sep) + seq![sep]);
    }
}

/// Extending the trailing piece extends the join by that byte.
proof fn lemma_join_with_last_push(pieces: Seq<Seq<u8>>, cur: Seq<u8>, b: u8, sep: u8)
    ensures
        join_with(pieces.push(cur.push(b)), sep) == join_with(pieces.push(cur), sep) + seq![b],
    decreases pieces.len(),
{
    if pieces.len() == 0 {
        assert(join_with(seq![cur.push(b)], sep) =~= cur.push(b));
        assert(join_with(seq![cur], sep) =~= cur);
        assert(cur.push(b) =~= cur + seq![b]);
        assert(seq![cur.push(b)] =~= Seq::<Seq<u8>>::empty().push(cur.push(b)));
        assert(seq![cur] =~= Seq::<Seq<u8>>::empty().push(cur));
    } else {
        assert(pieces.push(cur.push(b)).drop_first() =~= pieces.drop_first().push(cur.push(b)));
        assert(pieces.push(cur).drop_first() =~= pieces.drop_first().push(cur));
        lemma_join_with_last_push(pieces.drop_first(), cur, b, sep);
        if pieces.len() == 1 {
            assert(join_with(pieces.push(cur.push(b)), sep) =~= pieces[0] + seq![sep] + join_with(
                seq![cur.push(b)],
                sep,
            ));
        }
        assert(join_with(pieces.push(cur.push(b)), sep) =~= join_with(pieces.push(cur), sep)
            + seq![b]);
    }
}


/// The three query parameters the HTTP-FLV endpoint reads.
pub struct QueryParams {
    /// `file_name=...`: the recording file name to use.
    pub file_name: Option<Vec<u8>>,
    /// `token=...`: the subscribe token.
    pub token: Option<Vec<u8>>,
    /// `nonce=...`: the single-use nonce.
    pub nonce: Option<Vec<u8>>,
}

/// The spec key bytes `file_name`.
pub open spec fn key_file_name() -> Seq<u8> {
    seq![0x66u8, 0x69u8, 0x6cu8, 0x65u8, 0x5fu8, 0x6eu8, 0x61u8, 0x6du8, 0x65u8]
}

/// The spec key bytes `token`.
pub open spec fn key_token() -> Seq<u8> {
    seq![0x74u8, 0x6fu8, 0x6bu8, 0x65u8, 0x6eu8]
}

/// The spec key bytes `nonce`.
pub open spec fn key_nonce() -> Seq<u8> {
    seq![0x6eu8, 0x6fu8, 0x6eu8, 0x63u8, 0x65u8]
}

/// What one query piece assigns to a key, if anything.
fn kv_value(piece: &Vec<u8>, key: &[u8]) -> (r: Option<Vec<u8>>)
    ensures
        r is Some <==> is_kv(piece@, key@),
        r matches Some(v) ==> v@ == piece@.skip(key@.len() as int + 1),
{
    let klen = key.len();
    if piece.len() <= klen {
        return None;
    }
    if piece.len() == klen + 1 {
        return None;
    }
    let mut i: usize = 0;
    while i < klen
        invariant
            i <= klen,
            klen == key@.len(),
            piece@.len() > klen + 1,
            forall|t: int| 0 <= t < i ==> piece@[t] == key@[t],
        decreases klen - i,
    {
        if piece[i] != key[i] {
            proof {
                assert(piece@.take(klen as int)[i as int] != key@[i as int]);
            }
            return None;
        }
        i = i + 1;
    }
    proof {
        assert(piece@.take(klen as int) =~= key@);
    }
    if piece[klen] != 61 {
        return None;
    }
    let n = piece.len();
    let mut value: Vec<u8> = Vec::new();
    let mut j: usize = klen + 1;
    while j < n
        invariant
            klen + 1 <= j <= n,
            n == piece@.len(),
            klen == key@.len(),
            value@ == piece@.subrange(klen as int + 1, j as int),
            forall|t: int| klen + 1 <= t < j ==> piece@[t] != 61,
        decreases n - j,
    {
        if piece[j] == 61 {
            return None;
        }
        value.push(piece[j]);
        j = j + 1;
        proof {
            assert(value@ =~= piece@.subrange(klen as int + 1, j as int));
        }
    }
    proof {
        assert(value@ =~= piece@.skip(klen as int + 1));
    }
    Some(value)
}

/// Whether these pieces are the split of `s` on `&`: they join back to
/// `s` with `&` between them and none holds a `&`. Exactly one sequence of
/// pieces satisfies this of a given `s`.
pub open spec fn is_amp_split(s: Seq<u8>, pieces: Seq<Seq<u8>>) -> bool {
    &&& pieces.len() >= 1
    &&& join_with(pieces, 38) == s
    &&& forall|i: int, t: int|
        0 <= i < pieces.len() && 0 <= t < pieces[i].len() ==> #[trigger] pieces[i][t] != 38
}

/// Reads the `file_name`, `token` and `nonce` parameters out of a query
/// string, split on `&`; as in ordinary assignment, the last occurrence of
/// a key wins, and a piece with `=` in its value is ignored.
pub fn parse_query_params(query: &[u8]) -> (r: QueryParams)
    ensures
        exists|pieces: Seq<Seq<u8>>|
            {
                &&& #[trigger] is_amp_split(query@, pieces)
                &&& (r.file_name matches Some(v) ==> param_value(pieces, key_file_name()) == Some(
                    v@,
                ))
                &&& (r.file_name is None ==> param_value(pieces, key_file_name()) is None)
                &&& (r.token matches Some(v) ==> param_value(pieces, key_token()) == Some(v@))
                &&& (r.token is None ==> param_value(pieces, key_token()) is None)
                &&& (r.nonce matches Some(v) ==> param_value(pieces, key_nonce()) == Some(v@))
                &&& (r.nonce is None ==> param_value(pieces, key_nonce()) is None)
            },
{
    let pieces = split_bytes(query, 38);
    let file_name_key: [u8; 9] = [0x66, 0x69, 0x6c, 0x65, 0x5f, 0x6e, 0x61, 0x6d, 0x65];
    let token_key: [u8; 5] = [0x74, 0x6f, 0x6b, 0x65, 0x6e];
    let nonce_key: [u8; 5] = [0x6e, 0x6f, 0x6e, 0x63, 0x65];
    proof {
        assert(file_name_key@ =~= key_file_name());
        assert(token_key@ =~= key_token());
        assert(nonce_key@ =~= key_nonce());
    }
    let mut file_name: Option<Vec<u8>> = None;
    let mut token: Option<Vec<u8>> = None;
    let mut nonce: Option<Vec<u8>> = None;
    let n = pieces.len();
    let mut i: usize = 0;
    let ghost views = pieces@.map(|a: int, p: Vec<u8>| p@);
    while i < n
        invariant
            i <= n,
            n == pieces@.len(),
            views == pieces@.map(|a: int, p: Vec<u8>| p@),
            file_name_key@ == key_file_name(),
            token_key@ == key_token(),
            nonce_key@ == key_nonce(),
            file_name matches Some(v) ==> param_value(views.take(i as int), key_file_name())
                == Some(v@),
            file_name is None ==> param_value(views.take(i as int), key_file_name()) is None,
            token matches Some(v) ==> param_value(views.take(i as int), key_token()) == Some(v@),
            token is None ==> param_value(views.take(i as int), key_token()) is None,
            nonce matches Some(v) ==> param_value(views.take(i as int), key_nonce()) == Some(v@),
            nonce is None ==> param_value(views.take(i as int), key_nonce()) is None,
        decreases n - i,
    {
        proof {
            assert(views.take(i as int + 1).drop_last() =~= views.take(i as int));
            assert(views.take(i as int + 1).last() == views[i as int]);
            assert(views[i as int] == pieces@[i as int]@);
        }
        match kv_value(&pieces[i], file_name_key.as_slice()) {
            Some(v) => {
                file_name = Some(v);
            },
            None => {},
        }
        match kv_value(&pieces[i], token_key.as_slice()) {
            Some(v) => {
                token = Some(v);
            },
            None => {},
        }
        match kv_value(&pieces[i], nonce_key.as_slice()) {
            Some(v) => {
                nonce = Some(v);
            },
            None => {},
        }
        i = i + 1;
    }
    proof {
        assert(views.take(n as int) =~= views);
        assert(is_amp_split(query@, views));
    }
    QueryParams { file_name, token, nonce }
}


/// The four bytes `.flv`.
pub open spec fn flv_suffix() -> Seq<u8> {
    seq![0x2eu8, 0x66u8, 0x6cu8, 0x76u8]
}

/// The first position at or after `i` where `.flv` stands, or the length.
pub open spec fn find_flv_from(s: Seq<u8>, i: int) -> int
    decreases s.len() - i,
{
    if i < 0 || i + 4 > s.len() {
        s.len() as int
    } else if s.subrange(i, i + 4) == flv_suffix() {
        i
    } else {
        find_flv_from(s, i + 1)
    }
}

/// Whether these pieces are the split of `s` on `/`.
pub open spec fn is_slash_split(s: Seq<u8>, pieces: Seq<Seq<u8>>) -> bool {
    &&& pieces.len() >= 1
    &&& join_with(pieces, 47) == s
    &&& forall|i: int, t: int|
        0 <= i < pieces.len() && 0 <= t < pieces[i].len() ==> #[trigger] pieces[i][t] != 47
}

/// Reads the application and stream names out of an HTTP-FLV request
/// path: everything before the first `.flv` is split on `/`, and the
/// second and third pieces are the names. Nothing is returned when no
/// `.flv` follows a non-empty prefix, or the prefix has too few pieces.
pub fn parse_flv_path(path: &[u8]) -> (r: Option<(Vec<u8>, Vec<u8>)>)
    ensures
        ({
            let fi = find_flv_from(path@, 0);
            &&& (fi >= path@.len() || fi == 0 ==> r is None)
            &&& (0 < fi < path@.len() ==> (exists|pieces: Seq<Seq<u8>>|
                {
                    &&& #[trigger] is_slash_split(path@.take(fi), pieces)
                    &&& (r matches Some(names) ==> pieces.len() >= 3 && names.0@ == pieces[1]
                        && names.1@ == pieces[2])
                    &&& (r is None ==> pieces.len() < 3)
                }))
        }),
{
    let n = path.len();
    let mut i: usize = 0;
    let found: bool;
    loop
        invariant_except_break
            0 <= i <= n,
            n == path@.len(),
            find_flv_from(path@, 0) == find_flv_from(path@, i as int),
        ensures
            0 <= i <= n,
            n == path@.len(),
            found ==> i + 4 <= n && find_flv_from(path@, 0) == i as int,
            !found ==> find_flv_from(path@, 0) == n as int,
        decreases n - i,
    {
        if n - i < 4 {
            found = false;
            proof {
                assert(find_flv_from(path@, i as int) == n);
            }
            break ;
        }
        if path[i] == 0x2e && path[i + 1] == 0x66 && path[i + 2] == 0x6c && path[i + 3] == 0x76 {
            proof {
                assert(path@.subrange(i as int, i as int + 4) =~= flv_suffix());
                assert(find_flv_from(path@, i as int) == i);
            }
            found = true;
            break ;
        }
        proof {
            assert(path@.subrange(i as int, i as int + 4) != flv_suffix()) by {
                assert(path@.subrange(i as int, i as int + 4)[0] == path@[i as int]);
                assert(path@.subrange(i as int, i as int + 4)[1] == path@[i as int + 1]);
                assert(path@.subrange(i as int, i as int + 4)[2] == path@[i as int + 2]);
                assert(path@.subrange(i as int, i as int + 4)[3] == path@[i as int + 3]);
            }
        }
        i = i + 1;
    }
    if !found || i == 0 {
        return None;
    }
    // split the part before `.flv` on `/`
    let mut prefix: Vec<u8> = Vec::new();
    let mut t: usize = 0;
    while t < i
        invariant
            t <= i,
            i <= path@.len(),
            prefix@ == path@.take(i as int).take(t as int),
        decreases i - t,
    {
        prefix.push(path[t]);
        t = t + 1;
        proof {
            assert(prefix@ =~= path@.take(i as int).take(t as int));
        }
    }
    proof {
        assert(prefix@ =~= path@.take(i as int));
    }
    let pieces = split_bytes(prefix.as_slice(), 47);
    let ghost views = pieces@.map(|a: int, p: Vec<u8>| p@);
    proof {
        assert(is_slash_split(path@.take(i as int), views));
    }
    if pieces.len() < 3 {
        return None;
    }
    // take the second and third pieces out
    let mut src = pieces;
    let ghost src0 = src@;
    let _skip0 = src.remove(0);
    let ghost src1 = src@;
    let app = src.remove(0);
    let stream = src.remove(0);
    proof {
        assert(app == src1[0] && src1[0] == src0[1]);
        assert(stream == src1[1] && src1[1] == src0[2]);
        assert(app@ == views[1]);
        assert(stream@ == views[2]);
    }
    Some((app, stream))
}

} // verus!
