//! The stream hub: the in-process broker that owns every live stream,
//! enforces one publisher per stream, replays sticky headers and the GOP
//! cache to late subscribers, and fans frames out without ever blocking
//! the publisher on a slow consumer.

use vstd::prelude::*;

use crate::gop::{views_of, FrameData, FrameDataSpec, GopCache};

verus! {

/// A subscriber or publisher identity: 128 random bits, printable as a
/// UUID by the callers that mint it.
#[derive(PartialEq, Eq, Structural, Clone, Copy, Debug, Hash)]
pub struct Uuid {
    /// The raw 128 bits.
    pub value: u128,
}

/// The key of a live stream, by protocol origin.
pub enum StreamIdentifier {
    /// An RTMP-path stream: `rtmp://host/{app}/{stream}`.
    Rtmp { app_name: String, stream_name: String },
}

impl View for StreamIdentifier {
    type V = (Seq<char>, Seq<char>);

    open spec fn view(&self) -> (Seq<char>, Seq<char>) {
        match self {
            StreamIdentifier::Rtmp { app_name, stream_name } => (app_name@, stream_name@),
        }
    }
}

impl PartialEq for StreamIdentifier {
    /// Structural equality on the application and stream names.
    fn eq(&self, other: &StreamIdentifier) -> (r: bool) {
        match (self, other) {
            (
                StreamIdentifier::Rtmp { app_name, stream_name },
                StreamIdentifier::Rtmp { app_name: oa, stream_name: os },
            ) => app_name.eq(oa) && stream_name.eq(os),
        }
    }
}

impl vstd::std_specs::cmp::PartialEqSpecImpl for StreamIdentifier {
    open spec fn obeys_eq_spec() -> bool {
        true
    }

    open spec fn eq_spec(&self, other: &StreamIdentifier) -> bool {
        self@ == other@
    }
}

impl StreamIdentifier {
    /// An equal identifier, names copied.
    pub fn duplicate(&self) -> (r: StreamIdentifier)
        ensures
            r@ == self@,
    {
        match self {
            StreamIdentifier::Rtmp { app_name, stream_name } => StreamIdentifier::Rtmp {
                app_name: app_name.clone(),
                stream_name: stream_name.clone(),
            },
        }
    }
}

/// How a subscriber consumes the stream.
#[derive(PartialEq, Eq, Structural, Clone, Copy, Debug)]
pub enum SubscribeType {
    /// An RTMP player session.
    PlayerRtmp,
    /// An HTTP-FLV progressive download.
    PlayerHttpFlv,
    /// An HLS segment writer.
    PlayerHls,
}

/// Whether a subscriber wants demuxed frames or raw packets.
#[derive(PartialEq, Eq, Structural, Clone, Copy, Debug)]
pub enum SubDataType {
    /// Demuxed frames.
    Frame,
    /// Raw packets.
    Packet,
}

/// How a publisher feeds the stream.
#[derive(PartialEq, Eq, Structural, Clone, Copy, Debug)]
pub enum PublishType {
    /// An RTMP publishing session.
    Rtmp,
}

/// Where a session came from, for the statistics output.
pub struct NotifyInfo {
    /// The request URL the session presented.
    pub request_url: String,
    /// The remote socket address.
    pub remote_addr: String,
}

impl NotifyInfo {
    /// An equal copy.
    pub fn duplicate(&self) -> (r: NotifyInfo)
        ensures
            r.request_url@ == self.request_url@,
            r.remote_addr@ == self.remote_addr@,
    {
        NotifyInfo { request_url: self.request_url.clone(), remote_addr: self.remote_addr.clone() }
    }
}

/// A subscriber's identity and kind; immutable once made.
pub struct SubscriberInfo {
    /// Identity; equality of subscribers is equality of this id.
    pub id: Uuid,
    /// How it consumes the stream.
    pub sub_type: SubscribeType,
    /// Frames or packets.
    pub sub_data_type: SubDataType,
    /// Where it came from.
    pub notify_info: NotifyInfo,
}

impl SubscriberInfo {
    /// An equal copy.
    pub fn duplicate(&self) -> (r: SubscriberInfo)
        ensures
            r.id == self.id,
            r.sub_type == self.sub_type,
            r.sub_data_type == self.sub_data_type,
    {
        SubscriberInfo {
            id: self.id,
            sub_type: self.sub_type,
            sub_data_type: self.sub_data_type,
            notify_info: self.notify_info.duplicate(),
        }
    }
}

/// A publisher's identity and kind; immutable once made.
pub struct PublisherInfo {
    /// Identity; a kick matching this id force-unpublishes.
    pub id: Uuid,
    /// How it feeds the stream.
    pub pub_type: PublishType,
    /// Where it came from.
    pub notify_info: NotifyInfo,
}

#[verifier::external_type_specification]
#[verifier::external_body]
#[verifier::reject_recursive_types(T)]
pub struct ExSender<T>(tokio::sync::mpsc::Sender<T>);

/// Relies on tokio's `mpsc::Sender::try_send`: a non-blocking send into a
/// bounded channel that fails when the channel is full or the receiver is
/// gone. Which outcome occurs depends on the receiver, so nothing is
/// promised of it.
#[verifier::external_body]
fn try_send_frame(s: &tokio::sync::mpsc::Sender<FrameData>, f: FrameData) -> (ok: bool) {
    s.try_send(f).is_ok()
}

/// One attached subscriber: its identity, its frame channel, and the ghost
/// log of every frame handed to that channel.
pub struct SubscriberEntry {
    /// Who it is.
    pub info: SubscriberInfo,
    /// The channel frames are pushed into, non-blockingly.
    pub sender: tokio::sync::mpsc::Sender<FrameData>,
    /// Every frame handed to the channel, in order.
    pub sent: Ghost<Seq<FrameDataSpec>>,
    /// The replay handed over at attach time: sticky headers then the GOP
    /// cache of that moment.
    pub join_base: Ghost<Seq<FrameDataSpec>>,
    /// How many frames the stream's history held at attach time.
    pub join_point: Ghost<int>,
}

/// One live stream: its key, at most one publisher, the attached
/// subscribers, the GOP cache, and the ghost history of frames published
/// since the current publisher arrived.
pub struct StreamEntry {
    /// The stream's key.
    pub identifier: StreamIdentifier,
    /// The at most one publisher.
    pub publisher: Option<PublisherInfo>,
    /// The attached subscribers.
    pub subscribers: Vec<SubscriberEntry>,
    /// Sticky headers and recent GOPs for late subscribers.
    pub cache: GopCache,
    /// Frames published since the current publisher arrived.
    pub history: Ghost<Seq<FrameDataSpec>>,
}

/// The replay a fresh subscriber is handed: sticky metadata, video
/// sequence header, audio sequence header, then the cached frames.
pub open spec fn replay_views(cache: GopCache) -> Seq<FrameDataSpec> {
    (match cache.metadata {
        Some(f) => seq![f@],
        None => Seq::<FrameDataSpec>::empty(),
    }) + (match cache.video_seq_header {
        Some(f) => seq![f@],
        None => Seq::<FrameDataSpec>::empty(),
    }) + (match cache.audio_seq_header {
        Some(f) => seq![f@],
        None => Seq::<FrameDataSpec>::empty(),
    }) + views_of(cache.frames@)
}

impl StreamEntry {
    /// The per-stream invariant: a well-formed cache of the hub's GOP
    /// depth, and every attached subscriber handed exactly its replay
    /// followed by every frame published since it attached.
    pub open spec fn wf(&self, gop_num: usize) -> bool {
        &&& self.cache.wf()
        &&& self.cache.gop_num == gop_num
        &&& forall|j: int|
            0 <= j < self.subscribers@.len() ==> {
                &&& 0 <= (#[trigger] self.subscribers@[j]).join_point@ <= self.history@.len()
                &&& self.subscribers@[j].sent@ == self.subscribers@[j].join_base@
                    + self.history@.skip(self.subscribers@[j].join_point@)
            }
        &&& forall|a: int, b: int|
            0 <= a < b < self.subscribers@.len() ==> (#[trigger] self.subscribers@[a]).info.id != (
            #[trigger] self.subscribers@[b]).info.id
    }
}

/// Two identifiers naming the same stream.
pub open spec fn id_eq(a: StreamIdentifier, b: StreamIdentifier) -> bool {
    a@ == b@
}

/// The first stream at or after `i` with the given key, or the length.
pub open spec fn stream_index_from(streams: Seq<StreamEntry>, id: StreamIdentifier, i: int) -> int
    decreases streams.len() - i,
{
    if i < 0 || i >= streams.len() {
        streams.len() as int
    } else if id_eq(streams[i].identifier, id) {
        i
    } else {
        stream_index_from(streams, id, i + 1)
    }
}

/// The first subscriber at or after `i` with the given id, or the length.
pub open spec fn sub_index_from(subs: Seq<SubscriberEntry>, id: Uuid, i: int) -> int
    decreases subs.len() - i,
{
    if i < 0 || i >= subs.len() {
        subs.len() as int
    } else if subs[i].info.id == id {
        i
    } else {
        sub_index_from(subs, id, i + 1)
    }
}

/// Whether some stream with this key is live (has an entry).
pub open spec fn spec_has_stream(streams: Seq<StreamEntry>, id: StreamIdentifier) -> bool {
    stream_index_from(streams, id, 0) < streams.len()
}

/// Whether the stream with this key has a publisher.
pub open spec fn spec_has_publisher(streams: Seq<StreamEntry>, id: StreamIdentifier) -> bool {
    spec_has_stream(streams, id) && streams[stream_index_from(streams, id, 0)].publisher is Some
}

/// `stream_index_from` points at a match or the end, with none between.
pub proof fn lemma_stream_index_from(streams: Seq<StreamEntry>, id: StreamIdentifier, i: int)
    requires
        0 <= i <= streams.len(),
    ensures
        i <= stream_index_from(streams, id, i) <= streams.len(),
        stream_index_from(streams, id, i) < streams.len() ==> id_eq(
            streams[stream_index_from(streams, id, i)].identifier,
            id,
        ),
        forall|t: int|
            i <= t < stream_index_from(streams, id, i) ==> !id_eq(
                (#[trigger] streams[t]).identifier,
                id,
            ),
    decreases streams.len() - i,
{
    if i < streams.len() && !id_eq(streams[i].identifier, id) {
        lemma_stream_index_from(streams, id, i + 1);
    }
}

/// `sub_index_from` points at a match or the end, with none between.
pub proof fn lemma_sub_index_from(subs: Seq<SubscriberEntry>, id: Uuid, i: int)
    requires
        0 <= i <= subs.len(),
    ensures
        i <= sub_index_from(subs, id, i) <= subs.len(),
        sub_index_from(subs, id, i) < subs.len() ==> subs[sub_index_from(subs, id, i)].info.id
            == id,
        forall|t: int| i <= t < sub_index_from(subs, id, i) ==> (#[trigger] subs[t]).info.id != id,
    decreases subs.len() - i,
{
    if i < subs.len() && subs[i].info.id != id {
        lemma_sub_index_from(subs, id, i + 1);
    }
}

/// How `publish` relates the stream list before and after, and its result.
pub open spec fn publish_post(
    pre: Seq<StreamEntry>,
    post: Seq<StreamEntry>,
    identifier: StreamIdentifier,
    info: PublisherInfo,
    r: Result<(), StreamHubError>,
) -> bool {
    &&& (r is Ok <==> !spec_has_publisher(pre, identifier))
    &&& spec_has_publisher(post, identifier)
    &&& (r matches Err(e) ==> e.value is DuplicatePublish && post == pre)
    &&& (r is Ok && spec_has_stream(pre, identifier) ==> ({
        let si = stream_index_from(pre, identifier, 0);
        &&& post.len() == pre.len()
        &&& (forall|j: int| 0 <= j < pre.len() && j != si ==> post[j] == pre[j])
        &&& post[si].identifier@ == pre[si].identifier@
        &&& post[si].publisher == Some(info)
        &&& post[si].cache.frames@.len() == 0
        &&& post[si].cache.video_seq_header is None
        &&& post[si].cache.audio_seq_header is None
        &&& post[si].cache.metadata is None
        &&& post[si].history@.len() == 0
        &&& post[si].subscribers@.len() == pre[si].subscribers@.len()
        &&& (forall|j: int|
            0 <= j < pre[si].subscribers@.len() ==> {
                &&& (#[trigger] post[si].subscribers@[j]).info == pre[si].subscribers@[j].info
                &&& post[si].subscribers@[j].sender == pre[si].subscribers@[j].sender
            })
    }))
    &&& (r is Ok && !spec_has_stream(pre, identifier) ==> ({
        &&& post.len() == pre.len() + 1
        &&& (forall|j: int| 0 <= j < pre.len() ==> post[j] == pre[j])
        &&& post[pre.len() as int].identifier@ == identifier@
        &&& post[pre.len() as int].publisher == Some(info)
        &&& post[pre.len() as int].subscribers@.len() == 0
        &&& post[pre.len() as int].cache.frames@.len() == 0
        &&& post[pre.len() as int].cache.video_seq_header is None
        &&& post[pre.len() as int].cache.audio_seq_header is None
        &&& post[pre.len() as int].cache.metadata is None
        &&& post[pre.len() as int].history@.len() == 0
    }))
}

/// How `unpublish` relates the stream list before and after: the publisher
/// withdrawn, cache and history restarted, subscribers kept, an emptied
/// stream destroyed, every other stream untouched.
pub open spec fn unpublish_post(
    pre: Seq<StreamEntry>,
    post: Seq<StreamEntry>,
    identifier: StreamIdentifier,
) -> bool {
    &&& !spec_has_publisher(post, identifier)
    &&& (!spec_has_stream(pre, identifier) ==> post == pre)
    &&& (spec_has_stream(pre, identifier) ==> ({
        let si = stream_index_from(pre, identifier, 0);
        &&& (pre[si].subscribers@.len() == 0 ==> post == pre.remove(si))
        &&& (pre[si].subscribers@.len() > 0 ==> ({
            &&& post.len() == pre.len()
            &&& (forall|t: int| 0 <= t < pre.len() && t != si ==> post[t] == pre[t])
            &&& post[si].identifier@ == pre[si].identifier@
            &&& post[si].publisher is None
            &&& post[si].cache.frames@.len() == 0
            &&& post[si].cache.video_seq_header is None
            &&& post[si].cache.audio_seq_header is None
            &&& post[si].cache.metadata is None
            &&& post[si].history@.len() == 0
            &&& post[si].subscribers@.len() == pre[si].subscribers@.len()
            &&& (forall|t: int|
                0 <= t < pre[si].subscribers@.len() ==> {
                    &&& (#[trigger] post[si].subscribers@[t]).info == pre[si].subscribers@[t].info
                    &&& post[si].subscribers@[t].sender == pre[si].subscribers@[t].sender
                    &&& post[si].subscribers@[t].sent@ == pre[si].subscribers@[t].sent@
                })
        }))
    }))
}

/// How `unsubscribe` relates the stream list before and after: the first
/// subscriber with the id detached, a stream left with nothing destroyed,
/// every other stream untouched.
pub open spec fn unsubscribe_post(
    pre: Seq<StreamEntry>,
    post: Seq<StreamEntry>,
    identifier: StreamIdentifier,
    id: Uuid,
) -> bool {
    &&& (!spec_has_stream(pre, identifier) ==> post == pre)
    &&& (spec_has_stream(pre, identifier) ==> ({
        let si = stream_index_from(pre, identifier, 0);
        let subs0 = pre[si].subscribers@;
        let sj = sub_index_from(subs0, id, 0);
        &&& (sj == subs0.len() ==> post == pre)
        &&& (sj < subs0.len() && (subs0.len() > 1 || pre[si].publisher is Some) ==> ({
            &&& post.len() == pre.len()
            &&& (forall|t: int| 0 <= t < pre.len() && t != si ==> post[t] == pre[t])
            &&& post[si].identifier@ == pre[si].identifier@
            &&& post[si].publisher == pre[si].publisher
            &&& post[si].cache == pre[si].cache
            &&& post[si].subscribers@ == subs0.remove(sj)
            &&& sub_index_from(post[si].subscribers@, id, 0) == post[si].subscribers@.len()
        }))
        &&& (sj < subs0.len() && subs0.len() == 1 && pre[si].publisher is None ==> post
            == pre.remove(si))
    }))
}

/// How a kick relates the stream list before and after: nothing matching,
/// nothing changed; a matching publisher force-unpublished exactly as
/// `unpublish` does (subscribers kept); otherwise the matching subscriber
/// detached exactly as `unsubscribe` does.
pub open spec fn kick_post(pre: Seq<StreamEntry>, post: Seq<StreamEntry>, id: Uuid) -> bool {
    let ki = kick_index_from(pre, id, 0);
    &&& (ki == pre.len() ==> post == pre)
    &&& (ki < pre.len() ==> ({
        let e = pre[ki];
        &&& (pub_matches(e, id) ==> unpublish_post(pre, post, e.identifier))
        &&& (!pub_matches(e, id) ==> unsubscribe_post(pre, post, e.identifier, id))
    }))
}

/// How `subscribe` relates the stream list before and after, and its
/// result: refusal exactly when configured to refuse a stream that is not
/// live; otherwise the replay handed over and the subscriber attached
/// exactly when the channel took all of it, an empty replay always taken.
pub open spec fn subscribe_post(
    pre: Seq<StreamEntry>,
    post: Seq<StreamEntry>,
    subscribe_waits: bool,
    identifier: StreamIdentifier,
    info: SubscriberInfo,
    sender: tokio::sync::mpsc::Sender<FrameData>,
    r: Result<bool, StreamHubError>,
) -> bool {
    &&& (r is Err <==> (!subscribe_waits && !spec_has_stream(pre, identifier)))
    &&& (r matches Err(e) ==> e.value is StreamNotFound && post == pre)
    &&& (r is Ok ==> spec_has_stream(post, identifier))
    &&& (r matches Ok(att) ==> spec_has_stream(pre, identifier) ==> ({
        let si = stream_index_from(pre, identifier, 0);
        &&& post.len() == pre.len()
        &&& (forall|t: int| 0 <= t < pre.len() && t != si ==> post[t] == pre[t])
        &&& entry_after_subscribe(pre[si], post[si], info, sender, att)
        &&& (replay_views(pre[si].cache).len() == 0 ==> att)
    }))
    &&& (r matches Ok(att) ==> !spec_has_stream(pre, identifier) ==> ({
        let ne = post[pre.len() as int];
        &&& post.len() == pre.len() + 1
        &&& (forall|t: int| 0 <= t < pre.len() ==> post[t] == pre[t])
        &&& ne.identifier@ == identifier@
        &&& ne.publisher is None
        &&& ne.history@.len() == 0
        &&& ne.cache.frames@.len() == 0
        &&& ne.cache.video_seq_header is None
        &&& ne.cache.audio_seq_header is None
        &&& ne.cache.metadata is None
        &&& att
        &&& ne.subscribers@.len() == 1
        &&& ne.subscribers@[0].info.id == info.id
        &&& ne.subscribers@[0].sender == sender
        &&& ne.subscribers@[0].sent@.len() == 0
    }))
}

/// With pairwise distinct keys, a stream is found under its own key.
pub proof fn lemma_stream_self_index(streams: Seq<StreamEntry>, t: int)
    requires
        0 <= t < streams.len(),
        forall|a: int, b: int|
            0 <= a < b < streams.len() ==> (#[trigger] streams[a]).identifier@ != (
            #[trigger] streams[b]).identifier@,
    ensures
        stream_index_from(streams, streams[t].identifier, 0) == t,
{
    lemma_stream_index_from(streams, streams[t].identifier, 0);
    let r = stream_index_from(streams, streams[t].identifier, 0);
    if r != t {
        assert(id_eq(streams[t].identifier, streams[t].identifier));
        assert(r < streams.len());
        assert(streams[r].identifier@ == streams[t].identifier@);
        assert(false);
    }
}

/// Whether a stat reports a live stream: the stream found under the
/// stat's own key is reported by it faithfully.
pub open spec fn stat_reports_live(streams: Seq<StreamEntry>, st: StreamStat) -> bool {
    let si = stream_index_from(streams, st.identifier, 0);
    si < streams.len() && stat_matches(streams[si], st, Option::<Uuid>::None)
}

/// What a statistics answer reports: the one matching stream under a key;
/// every stream in order without one; only the most subscribed, most
/// subscribed first, under a top count.
pub open spec fn statistic_post(
    streams: Seq<StreamEntry>,
    top_n: Option<usize>,
    identifier: Option<StreamIdentifier>,
    uuid: Option<Uuid>,
    r: Seq<StreamStat>,
) -> bool {
    &&& (identifier matches Some(id) ==> ({
        &&& (spec_has_stream(streams, id) ==> r.len() == 1 && stat_matches(
            streams[stream_index_from(streams, id, 0)],
            r[0],
            uuid,
        ))
        &&& (!spec_has_stream(streams, id) ==> r.len() == 0)
    }))
    &&& (identifier is None && top_n is None ==> r.len() == streams.len() && (forall|i: int|
        0 <= i < r.len() ==> stat_matches(#[trigger] streams[i], r[i], Option::<Uuid>::None)))
    &&& (identifier is None ==> (top_n matches Some(n) ==> ({
        &&& r.len() == (if (n as int) <= streams.len() {
            n as int
        } else {
            streams.len() as int
        })
        &&& (forall|a: int, b: int|
            0 <= a < b < r.len() ==> (#[trigger] r[a]).subscriber_count >= (
            #[trigger] r[b]).subscriber_count)
        &&& (forall|a: int| 0 <= a < r.len() ==> stat_reports_live(streams, #[trigger] r[a]))
        &&& (forall|a: int, b: int|
            0 <= a < b < r.len() ==> (#[trigger] r[a]).identifier@ != (
            #[trigger] r[b]).identifier@)
    })))
}

/// The broadcast filter neither invents nor duplicates identities: every
/// survivor's id is one of the old ids, and distinct old ids stay distinct.
proof fn lemma_filter_distinct(
    subs0: Seq<SubscriberEntry>,
    keep: Seq<bool>,
    fv: FrameDataSpec,
    subs1: Seq<SubscriberEntry>,
)
    requires
        keep.len() == subs0.len(),
        is_broadcast_filter(subs0, keep, fv, subs1),
        forall|a: int, b: int|
            0 <= a < b < subs0.len() ==> (#[trigger] subs0[a]).info.id != (
            #[trigger] subs0[b]).info.id,
    ensures
        forall|j: int|
            0 <= j < subs1.len() ==> exists|i: int|
                0 <= i < subs0.len() && (#[trigger] subs1[j]).info.id == subs0[i].info.id,
        forall|a: int, b: int|
            0 <= a < b < subs1.len() ==> (#[trigger] subs1[a]).info.id != (
            #[trigger] subs1[b]).info.id,
    decreases subs0.len(),
{
    if subs0.len() == 0 {
    } else {
        let t0 = subs0.drop_first();
        let tk = keep.drop_first();
        if keep[0] {
            let t1 = subs1.drop_first();
            lemma_filter_distinct(t0, tk, fv, t1);
            assert forall|j: int| 0 <= j < subs1.len() implies exists|i: int|
                0 <= i < subs0.len() && (#[trigger] subs1[j]).info.id == subs0[i].info.id by {
                if j == 0 {
                    assert(subs1[0].info.id == subs0[0].info.id);
                } else {
                    let w = choose|i: int|
                        0 <= i < t0.len() && #[trigger] t1[j - 1].info.id == t0[i].info.id;
                    assert(subs1[j].info.id == subs0[w + 1].info.id);
                }
            }
            assert forall|a: int, b: int| 0 <= a < b < subs1.len() implies (
            #[trigger] subs1[a]).info.id != (#[trigger] subs1[b]).info.id by {
                if a == 0 {
                    let w = choose|i: int|
                        0 <= i < t0.len() && #[trigger] t1[b - 1].info.id == t0[i].info.id;
                    assert(subs1[b].info.id == subs0[w + 1].info.id);
                    assert(subs0[0].info.id != subs0[w + 1].info.id);
                } else {
                    assert(t1[a - 1].info.id != t1[b - 1].info.id);
                }
            }
        } else {
            lemma_filter_distinct(t0, tk, fv, subs1);
            assert forall|j: int| 0 <= j < subs1.len() implies exists|i: int|
                0 <= i < subs0.len() && (#[trigger] subs1[j]).info.id == subs0[i].info.id by {
                let w = choose|i: int|
                    0 <= i < t0.len() && #[trigger] subs1[j].info.id == t0[i].info.id;
                assert(subs1[j].info.id == subs0[w + 1].info.id);
            }
        }
    }
}

/// Error raised by the hub on a control event.
#[derive(PartialEq, Eq, Structural, Clone, Copy, Debug)]
pub struct StreamHubError {
    pub value: StreamHubErrorValue,
}

/// The kinds of hub errors.
#[derive(PartialEq, Eq, Structural, Clone, Copy, Debug)]
pub enum StreamHubErrorValue {
    /// A second publish for a stream that already has a publisher.
    DuplicatePublish,
    /// A subscribe for a stream that is not live, on a hub configured to
    /// reject rather than wait.
    StreamNotFound,
}

/// The broker. One task owns it and applies control events serially; that
/// serialization is the consistency mechanism.
pub struct StreamHub {
    /// The live streams.
    pub streams: Vec<StreamEntry>,
    /// How many complete GOPs each stream caches.
    pub gop_num: usize,
    /// Whether a subscribe for a stream that is not live creates the
    /// entry and waits for a publisher, or is rejected.
    pub subscribe_waits: bool,
}

impl StreamHub {
    /// The hub invariant: every stream well-formed at the hub's GOP depth,
    /// and stream keys pairwise distinct.
    pub open spec fn wf(&self) -> bool {
        &&& forall|i: int|
            0 <= i < self.streams@.len() ==> (#[trigger] self.streams@[i]).wf(self.gop_num)
        &&& forall|i: int, j: int|
            0 <= i < j < self.streams@.len() ==> (#[trigger] self.streams@[i]).identifier@ != (
            #[trigger] self.streams@[j]).identifier@
    }

    /// An empty hub.
    pub fn new(gop_num: usize, subscribe_waits: bool) -> (h: StreamHub)
        ensures
            h.wf(),
            h.streams@.len() == 0,
            h.gop_num == gop_num,
            h.subscribe_waits == subscribe_waits,
    {
        StreamHub { streams: Vec::new(), gop_num, subscribe_waits }
    }

    /// Finds the stream with this key.
    fn find_stream(&self, identifier: &StreamIdentifier) -> (r: Option<usize>)
        ensures
            r matches Some(i) ==> i == stream_index_from(self.streams@, *identifier, 0) && i
                < self.streams@.len(),
            r is None ==> stream_index_from(self.streams@, *identifier, 0)
                == self.streams@.len(),
    {
        let n = self.streams.len();
        let mut i: usize = 0;
        while i < n
            invariant_except_break
                0 <= i <= n,
                n == self.streams@.len(),
                stream_index_from(self.streams@, *identifier, 0) == stream_index_from(
                    self.streams@,
                    *identifier,
                    i as int,
                ),
            ensures
                0 <= i <= n,
                n == self.streams@.len(),
                i < n ==> stream_index_from(self.streams@, *identifier, 0) == i as int,
                i == n ==> stream_index_from(self.streams@, *identifier, 0) == n as int,
            decreases n - i,
        {
            if self.streams[i].identifier.eq(identifier) {
                proof {
                    assert(stream_index_from(self.streams@, *identifier, i as int) == i);
                }
                break ;
            }
            i = i + 1;
            proof {
                if i == n {
                    assert(stream_index_from(self.streams@, *identifier, i as int) == n);
                }
            }
        }
        if i < n {
            Some(i)
        } else {
            None
        }
    }
}


/// Streams with pointwise equal keys from `i` on index the same.
pub proof fn lemma_stream_index_pointwise(
    a: Seq<StreamEntry>,
    b: Seq<StreamEntry>,
    id: StreamIdentifier,
    i: int,
)
    requires
        a.len() == b.len(),
        0 <= i <= a.len(),
        forall|j: int| i <= j < a.len() ==> (#[trigger] a[j]).identifier@ == b[j].identifier@,
    ensures
        stream_index_from(a, id, i) == stream_index_from(b, id, i),
    decreases a.len() - i,
{
    if i < a.len() {
        lemma_stream_index_pointwise(a, b, id, i + 1);
    }
}

/// Appending an entry to streams without a match makes its index the old
/// length when it matches, one past otherwise.
pub proof fn lemma_stream_index_push(a: Seq<StreamEntry>, e: StreamEntry, id: StreamIdentifier, i: int)
    requires
        0 <= i <= a.len(),
    ensures
        stream_index_from(a, id, i) < a.len() ==> stream_index_from(a.push(e), id, i)
            == stream_index_from(a, id, i),
        stream_index_from(a, id, i) == a.len() && id_eq(e.identifier, id) ==> stream_index_from(
            a.push(e),
            id,
            i,
        ) == a.len(),
        stream_index_from(a, id, i) == a.len() && !id_eq(e.identifier, id) ==> stream_index_from(
            a.push(e),
            id,
            i,
        ) == a.len() + 1,
    decreases a.len() - i,
{
    if i < a.len() {
        assert(a.push(e)[i] == a[i]);
        if !id_eq(a[i].identifier, id) {
            lemma_stream_index_push(a, e, id, i + 1);
        }
    } else {
        assert(a.push(e)[a.len() as int] == e);
        if !id_eq(e.identifier, id) {
            assert(stream_index_from(a.push(e), id, a.len() as int + 1) == a.len() + 1);
        }
    }
}

/// With no matching key from `i` on, the index is the length.
pub proof fn lemma_stream_index_none(streams: Seq<StreamEntry>, id: StreamIdentifier, i: int)
    requires
        0 <= i <= streams.len(),
        forall|t: int| i <= t < streams.len() ==> !id_eq((#[trigger] streams[t]).identifier, id),
    ensures
        stream_index_from(streams, id, i) == streams.len(),
    decreases streams.len() - i,
{
    if i < streams.len() {
        lemma_stream_index_none(streams, id, i + 1);
    }
}

impl StreamHub {
    /// A blank entry used while another is worked on.
    fn blank_entry(gop_num: usize) -> (e: StreamEntry)
        ensures
            e.subscribers@.len() == 0,
            e.publisher is None,
    {
        StreamEntry {
            identifier: StreamIdentifier::Rtmp {
                app_name: String::new(),
                stream_name: String::new(),
            },
            publisher: None,
            subscribers: Vec::new(),
            cache: GopCache::new(gop_num),
            history: Ghost(Seq::empty()),
        }
    }

    /// Registers a publisher for the stream. Exactly when no publisher
    /// holds the stream, the publish is accepted: the stream's entry is
    /// created if absent, its cache and history restart, and attached
    /// subscribers stay. A second live publisher is `DuplicatePublish`.
    pub fn publish(&mut self, identifier: &StreamIdentifier, info: PublisherInfo) -> (r: Result<
        (),
        StreamHubError,
    >)
        requires
            old(self).wf(),
        ensures
            final(self).wf(),
            final(self).gop_num == old(self).gop_num,
            final(self).subscribe_waits == old(self).subscribe_waits,
            r is Ok <==> !spec_has_publisher(old(self).streams@, *identifier),
            spec_has_publisher(final(self).streams@, *identifier),
            r matches Err(e) ==> e.value is DuplicatePublish && final(self).streams@ == old(
                self,
            ).streams@,
            r is Ok && spec_has_stream(old(self).streams@, *identifier) ==> ({
                let i = stream_index_from(old(self).streams@, *identifier, 0);
                &&& final(self).streams@.len() == old(self).streams@.len()
                &&& (forall|j: int|
                    0 <= j < old(self).streams@.len() && j != i ==> final(self).streams@[j] == old(
                        self,
                    ).streams@[j])
                &&& final(self).streams@[i].identifier@ == old(self).streams@[i].identifier@
                &&& final(self).streams@[i].publisher == Some(info)
                &&& final(self).streams@[i].cache.frames@.len() == 0
                &&& final(self).streams@[i].cache.video_seq_header is None
                &&& final(self).streams@[i].cache.audio_seq_header is None
                &&& final(self).streams@[i].cache.metadata is None
                &&& final(self).streams@[i].history@.len() == 0
                &&& final(self).streams@[i].subscribers@.len() == old(
                    self,
                ).streams@[i].subscribers@.len()
                &&& (forall|j: int|
                    0 <= j < old(self).streams@[i].subscribers@.len() ==> {
                        &&& (#[trigger] final(self).streams@[i].subscribers@[j]).info == old(
                            self,
                        ).streams@[i].subscribers@[j].info
                        &&& final(self).streams@[i].subscribers@[j].sender == old(
                            self,
                        ).streams@[i].subscribers@[j].sender
                    })
            }),
            r is Ok && !spec_has_stream(old(self).streams@, *identifier) ==> ({
                &&& final(self).streams@.len() == old(self).streams@.len() + 1
                &&& (forall|j: int|
                    0 <= j < old(self).streams@.len() ==> final(self).streams@[j] == old(
                        self,
                    ).streams@[j])
                &&& final(self).streams@[old(self).streams@.len() as int].identifier@
                    == identifier@
                &&& final(self).streams@[old(self).streams@.len() as int].publisher == Some(info)
                &&& final(self).streams@[old(self).streams@.len() as int].subscribers@.len() == 0
                &&& final(self).streams@[old(self).streams@.len() as int].cache.frames@.len() == 0
                &&& final(self).streams@[old(self).streams@.len() as int].cache.video_seq_header
                    is None
                &&& final(self).streams@[old(self).streams@.len() as int].cache.audio_seq_header
                    is None
                &&& final(self).streams@[old(self).streams@.len() as int].cache.metadata is None
                &&& final(self).streams@[old(self).streams@.len() as int].history@.len() == 0
            }),
    {
        proof {
            lemma_stream_index_from(self.streams@, *identifier, 0);
        }
        match self.find_stream(identifier) {
            Some(i) => {
                if matches!(&self.streams[i].publisher, Some(_)) {
                    return Err(StreamHubError { value: StreamHubErrorValue::DuplicatePublish });
                }
                let mut entry = Self::blank_entry(self.gop_num);
                core::mem::swap(&mut entry, &mut self.streams[i]);
                let ghost entry0 = entry;
                entry.publisher = Some(info);
                entry.cache.reset();
                entry.history = Ghost(Seq::empty());
                let ghost entry1 = entry;
                // the stream restarts: what each subscriber has already
                // received becomes its base
                let n = entry.subscribers.len();
                let mut j: usize = 0;
                while j < n
                    invariant
                        j <= n,
                        n == entry.subscribers@.len(),
                        entry.history@.len() == 0,
                        entry.identifier == entry0.identifier,
                        entry.publisher == Some(info),
                        entry.cache == entry1.cache,
                        forall|t: int|
                            0 <= t < n ==> {
                                &&& (#[trigger] entry.subscribers@[t]).info
                                    == entry0.subscribers@[t].info
                                &&& entry.subscribers@[t].sender == entry0.subscribers@[t].sender
                                &&& entry.subscribers@[t].sent@ == entry0.subscribers@[t].sent@
                            },
                        forall|t: int|
                            0 <= t < j ==> {
                                &&& (#[trigger] entry.subscribers@[t]).join_point@ == 0
                                &&& entry.subscribers@[t].join_base@ == entry.subscribers@[t].sent@
                            },
                    decreases n - j,
                {
                    let ghost sentj = entry.subscribers@[j as int].sent@;
                    entry.subscribers[j].join_base = Ghost(sentj);
                    entry.subscribers[j].join_point = Ghost(0int);
                    j = j + 1;
                }
                self.streams[i] = entry;
                proof {
                    assert(forall|t: int|
                        0 <= t < self.streams@.len() ==> (#[trigger] self.streams@[t]).identifier@
                            == old(self).streams@[t].identifier@);
                    lemma_stream_index_pointwise(
                        self.streams@,
                        old(self).streams@,
                        *identifier,
                        0,
                    );
                    assert(self.streams@[i as int].wf(self.gop_num)) by {
                        assert(self.streams@[i as int].history@.skip(0)
                            =~= Seq::<FrameDataSpec>::empty());
                        assert(forall|t: int|
                            0 <= t < self.streams@[i as int].subscribers@.len() ==> (
                            #[trigger] self.streams@[i as int].subscribers@[t]).sent@
                                == self.streams@[i as int].subscribers@[t].join_base@
                                + self.streams@[i as int].history@.skip(
                                self.streams@[i as int].subscribers@[t].join_point@,
                            ));
                    }
                }
                Ok(())
            },
            None => {
                let entry = StreamEntry {
                    identifier: identifier.duplicate(),
                    publisher: Some(info),
                    subscribers: Vec::new(),
                    cache: GopCache::new(self.gop_num),
                    history: Ghost(Seq::empty()),
                };
                proof {
                    lemma_stream_index_push(
                        self.streams@,
                        entry,
                        *identifier,
                        0,
                    );
                }
                self.streams.push(entry);
                Ok(())
            },
        }
    }

    /// Withdraws the stream's publisher, if any: the cache and history
    /// restart, subscribers stay attached awaiting a new publisher, and a
    /// stream left with neither publisher nor subscribers is destroyed.
    /// Silent when the stream or publisher is absent.
    pub fn unpublish(&mut self, identifier: &StreamIdentifier)
        requires
            old(self).wf(),
        ensures
            final(self).wf(),
            final(self).gop_num == old(self).gop_num,
            final(self).subscribe_waits == old(self).subscribe_waits,
            !spec_has_publisher(final(self).streams@, *identifier),
            !spec_has_stream(old(self).streams@, *identifier) ==> final(self).streams@ == old(
                self,
            ).streams@,
            spec_has_stream(old(self).streams@, *identifier) ==> ({
                let si = stream_index_from(old(self).streams@, *identifier, 0);
                &&& (old(self).streams@[si].subscribers@.len() == 0 ==> final(self).streams@
                    == old(self).streams@.remove(si))
                &&& (old(self).streams@[si].subscribers@.len() > 0 ==> ({
                    &&& final(self).streams@.len() == old(self).streams@.len()
                    &&& (forall|t: int|
                        0 <= t < old(self).streams@.len() && t != si ==> final(self).streams@[t]
                            == old(self).streams@[t])
                    &&& final(self).streams@[si].identifier@ == old(
                        self,
                    ).streams@[si].identifier@
                    &&& final(self).streams@[si].publisher is None
                    &&& final(self).streams@[si].cache.frames@.len() == 0
                    &&& final(self).streams@[si].cache.video_seq_header is None
                    &&& final(self).streams@[si].cache.audio_seq_header is None
                    &&& final(self).streams@[si].cache.metadata is None
                    &&& final(self).streams@[si].history@.len() == 0
                    &&& final(self).streams@[si].subscribers@.len() == old(
                        self,
                    ).streams@[si].subscribers@.len()
                    &&& (forall|t: int|
                        0 <= t < old(self).streams@[si].subscribers@.len() ==> {
                            &&& (#[trigger] final(self).streams@[si].subscribers@[t]).info == old(
                                self,
                            ).streams@[si].subscribers@[t].info
                            &&& final(self).streams@[si].subscribers@[t].sender == old(
                                self,
                            ).streams@[si].subscribers@[t].sender
                            &&& final(self).streams@[si].subscribers@[t].sent@ == old(
                                self,
                            ).streams@[si].subscribers@[t].sent@
                        })
                }))
            }),
    {
        proof {
            lemma_stream_index_from(self.streams@, *identifier, 0);
        }
        match self.find_stream(identifier) {
            Some(i) => {
                let mut entry = Self::blank_entry(self.gop_num);
                core::mem::swap(&mut entry, &mut self.streams[i]);
                let ghost entry0 = entry;
                entry.publisher = None;
                entry.cache.reset();
                entry.history = Ghost(Seq::empty());
                let ghost entry1 = entry;
                let n = entry.subscribers.len();
                let mut j: usize = 0;
                while j < n
                    invariant
                        j <= n,
                        n == entry.subscribers@.len(),
                        entry.history@.len() == 0,
                        entry.publisher is None,
                        entry.cache == entry1.cache,
                        entry.identifier == entry0.identifier,
                        forall|t: int|
                            0 <= t < n ==> {
                                &&& (#[trigger] entry.subscribers@[t]).info
                                    == entry0.subscribers@[t].info
                                &&& entry.subscribers@[t].sender == entry0.subscribers@[t].sender
                                &&& entry.subscribers@[t].sent@ == entry0.subscribers@[t].sent@
                            },
                        forall|t: int|
                            0 <= t < j ==> {
                                &&& (#[trigger] entry.subscribers@[t]).join_point@ == 0
                                &&& entry.subscribers@[t].join_base@ == entry.subscribers@[t].sent@
                            },
                    decreases n - j,
                {
                    let ghost sentj = entry.subscribers@[j as int].sent@;
                    entry.subscribers[j].join_base = Ghost(sentj);
                    entry.subscribers[j].join_point = Ghost(0int);
                    j = j + 1;
                }
                if entry.subscribers.len() == 0 {
                    // destroy the empty stream
                    let blank = Self::blank_entry(self.gop_num);
                    self.streams[i] = blank;
                    let _gone = self.streams.remove(i);
                    proof {
                        let olds = old(self).streams@;
                        let news = self.streams@;
                        assert forall|t: int| 0 <= t < news.len() implies !id_eq(
                            (#[trigger] news[t]).identifier,
                            *identifier,
                        ) by {
                            if t < i {
                                assert(news[t] == olds[t]);
                            } else {
                                assert(news[t] == olds[t + 1]);
                            }
                            lemma_stream_index_from(olds, *identifier, 0);
                        }
                        lemma_stream_index_none(news, *identifier, 0);
                        assert forall|t: int| 0 <= t < news.len() implies (#[trigger] news[t]).wf(
                            self.gop_num,
                        ) by {
                            if t < i {
                                assert(news[t] == olds[t]);
                            } else {
                                assert(news[t] == olds[t + 1]);
                            }
                        }
                        assert forall|a: int, b: int| 0 <= a < b < news.len() implies (
                        #[trigger] news[a]).identifier@ != (#[trigger] news[b]).identifier@ by {
                            if a < i {
                                assert(news[a] == olds[a]);
                            } else {
                                assert(news[a] == olds[a + 1]);
                            }
                            if b < i {
                                assert(news[b] == olds[b]);
                            } else {
                                assert(news[b] == olds[b + 1]);
                            }
                        }
                    }
                } else {
                    self.streams[i] = entry;
                    proof {
                        lemma_stream_index_pointwise(
                            self.streams@,
                            old(self).streams@,
                            *identifier,
                            0,
                        );
                        assert(self.streams@[i as int].wf(self.gop_num)) by {
                            assert(self.streams@[i as int].history@.skip(0)
                                =~= Seq::<FrameDataSpec>::empty());
                        }
                    }
                }
            },
            None => {},
        }
    }
}


/// The subscribers after a subscribe that was taken: the base list (the
/// old list, any same-id entry removed) and then the new subscriber, whose
/// log and base are exactly the replay of `cache` and whose join point is
/// the history length at attach time.
pub open spec fn subs_after_attach(
    subs: Seq<SubscriberEntry>,
    base: Seq<SubscriberEntry>,
    info: SubscriberInfo,
    sender: tokio::sync::mpsc::Sender<FrameData>,
    cache: GopCache,
    hist_len: int,
) -> bool {
    &&& subs.len() == base.len() + 1
    &&& (forall|t: int| 0 <= t < base.len() ==> subs[t] == base[t])
    &&& subs[base.len() as int].info.id == info.id
    &&& subs[base.len() as int].sender == sender
    &&& subs[base.len() as int].join_base@ == replay_views(cache)
    &&& subs[base.len() as int].sent@ == replay_views(cache)
    &&& subs[base.len() as int].join_point@ == hist_len
}

/// The stream entry after a subscribe: everything but the subscriber list
/// unchanged, and that list grown by the new subscriber exactly when the
/// whole replay was taken.
pub open spec fn entry_after_subscribe(
    e0: StreamEntry,
    e1: StreamEntry,
    info: SubscriberInfo,
    sender: tokio::sync::mpsc::Sender<FrameData>,
    attached: bool,
) -> bool {
    let sj = sub_index_from(e0.subscribers@, info.id, 0);
    let base = if sj < e0.subscribers@.len() {
        e0.subscribers@.remove(sj)
    } else {
        e0.subscribers@
    };
    &&& e1.identifier@ == e0.identifier@
    &&& e1.publisher == e0.publisher
    &&& e1.cache == e0.cache
    &&& e1.history@ == e0.history@
    &&& (attached ==> subs_after_attach(
        e1.subscribers@,
        base,
        info,
        sender,
        e0.cache,
        e0.history@.len() as int,
    ))
    &&& (!attached ==> e1.subscribers@ == base)
}

/// Finds the first subscriber with this id.
fn find_sub(subs: &Vec<SubscriberEntry>, id: Uuid) -> (r: Option<usize>)
    ensures
        r matches Some(j) ==> j == sub_index_from(subs@, id, 0) && j < subs@.len(),
        r is None ==> sub_index_from(subs@, id, 0) == subs@.len(),
{
    let n = subs.len();
    let mut j: usize = 0;
    while j < n
        invariant_except_break
            0 <= j <= n,
            n == subs@.len(),
            sub_index_from(subs@, id, 0) == sub_index_from(subs@, id, j as int),
        ensures
            0 <= j <= n,
            n == subs@.len(),
            j < n ==> sub_index_from(subs@, id, 0) == j as int,
            j == n ==> sub_index_from(subs@, id, 0) == n as int,
        decreases n - j,
    {
        if subs[j].info.id.value == id.value {
            proof {
                assert(subs@[j as int].info.id == id);
                assert(sub_index_from(subs@, id, j as int) == j);
            }
            break ;
        }
        j = j + 1;
        proof {
            if j == n {
                assert(sub_index_from(subs@, id, j as int) == n);
            }
        }
    }
    if j < n {
        Some(j)
    } else {
        None
    }
}

impl StreamHub {
    /// Attaches a subscriber: an existing subscriber with the same id is
    /// replaced, the sticky metadata, video and audio sequence headers and
    /// the cached frames are handed to the new channel in that order, and
    /// only if the channel takes the whole replay is the subscriber
    /// attached (the result then says so). A stream that is not live is
    /// created to wait for its publisher, or refused with
    /// `StreamNotFound`, by the hub's configuration.
    #[verifier::rlimit(50)]
    pub fn subscribe(
        &mut self,
        identifier: &StreamIdentifier,
        info: SubscriberInfo,
        sender: tokio::sync::mpsc::Sender<FrameData>,
    ) -> (r: Result<bool, StreamHubError>)
        requires
            old(self).wf(),
        ensures
            final(self).wf(),
            final(self).gop_num == old(self).gop_num,
            final(self).subscribe_waits == old(self).subscribe_waits,
            r is Err <==> (!old(self).subscribe_waits && !spec_has_stream(
                old(self).streams@,
                *identifier,
            )),
            r matches Err(e) ==> e.value is StreamNotFound && final(self).streams@ == old(
                self,
            ).streams@,
            r is Ok ==> spec_has_stream(final(self).streams@, *identifier),
            r matches Ok(att) ==> spec_has_stream(old(self).streams@, *identifier) ==> ({
                let si = stream_index_from(old(self).streams@, *identifier, 0);
                &&& final(self).streams@.len() == old(self).streams@.len()
                &&& (forall|t: int|
                    0 <= t < old(self).streams@.len() && t != si ==> final(self).streams@[t] == old(
                        self,
                    ).streams@[t])
                &&& entry_after_subscribe(
                    old(self).streams@[si],
                    final(self).streams@[si],
                    info,
                    sender,
                    att,
                )
                &&& (replay_views(old(self).streams@[si].cache).len() == 0 ==> att)
            }),
            r matches Ok(att) ==> !spec_has_stream(old(self).streams@, *identifier) ==> ({
                let ne = final(self).streams@[old(self).streams@.len() as int];
                &&& final(self).streams@.len() == old(self).streams@.len() + 1
                &&& (forall|t: int|
                    0 <= t < old(self).streams@.len() ==> final(self).streams@[t] == old(
                        self,
                    ).streams@[t])
                &&& ne.identifier@ == identifier@
                &&& ne.publisher is None
                &&& ne.history@.len() == 0
                &&& ne.cache.frames@.len() == 0
                &&& ne.cache.video_seq_header is None
                &&& ne.cache.audio_seq_header is None
                &&& ne.cache.metadata is None
                &&& att
                &&& ne.subscribers@.len() == 1
                &&& ne.subscribers@[0].info.id == info.id
                &&& ne.subscribers@[0].sender == sender
                &&& ne.subscribers@[0].sent@.len() == 0
            }),
    {
        proof {
            lemma_stream_index_from(self.streams@, *identifier, 0);
        }
        let ghost existed = spec_has_stream(self.streams@, *identifier);
        let si: usize;
        match self.find_stream(identifier) {
            Some(i) => {
                si = i;
            },
            None => {
                if !self.subscribe_waits {
                    return Err(StreamHubError { value: StreamHubErrorValue::StreamNotFound });
                }
                let entry = StreamEntry {
                    identifier: identifier.duplicate(),
                    publisher: None,
                    subscribers: Vec::new(),
                    cache: GopCache::new(self.gop_num),
                    history: Ghost(Seq::empty()),
                };
                proof {
                    lemma_stream_index_push(self.streams@, entry, *identifier, 0);
                }
                si = self.streams.len();
                self.streams.push(entry);
            },
        }
        let ghost at_start = self.streams@;
        proof {
            if !existed {
                assert(stream_index_from(at_start, *identifier, 0) == si);
            }
        }
        let mut entry = Self::blank_entry(self.gop_num);
        core::mem::swap(&mut entry, &mut self.streams[si]);
        let ghost entry0 = entry;
        proof {
            lemma_sub_index_from(entry0.subscribers@, info.id, 0);
        }
        // a duplicate subscribe replaces the old channel
        match find_sub(&entry.subscribers, info.id) {
            Some(j) => {
                let _old_sub = entry.subscribers.remove(j);
            },
            None => {},
        }
        let ghost base = entry.subscribers@;
        proof {
            {
                // no one left carries the new subscriber's id, and the
                // remaining ids stay pairwise distinct
                let subs0 = entry0.subscribers@;
                let sj = sub_index_from(subs0, info.id, 0);
                assert forall|t: int| 0 <= t < base.len() implies (#[trigger] base[t]).info.id
                    != info.id by {
                    if sj < subs0.len() {
                        if t < sj {
                            assert(base[t] == subs0[t]);
                        } else {
                            assert(base[t] == subs0[t + 1]);
                            assert(subs0[sj].info.id != subs0[t + 1].info.id);
                        }
                    } else {
                        assert(base[t] == subs0[t]);
                    }
                }
                assert forall|a: int, b: int| 0 <= a < b < base.len() implies (
                #[trigger] base[a]).info.id != (#[trigger] base[b]).info.id by {
                    if sj < subs0.len() {
                        let a0: int = if a < sj {
                            a
                        } else {
                            a + 1
                        };
                        let b0: int = if b < sj {
                            b
                        } else {
                            b + 1
                        };
                        assert(base[a] == subs0[a0]);
                        assert(base[b] == subs0[b0]);
                    } else {
                        assert(base[a] == subs0[a]);
                        assert(base[b] == subs0[b]);
                    }
                }
            }
        }
        // the replay: sticky metadata, video and audio sequence headers,
        // then the cached frames, oldest first
        let mut replay: Vec<FrameData> = Vec::new();
        match &entry.cache.metadata {
            Some(f) => {
                replay.push(f.duplicate());
            },
            None => {},
        }
        match &entry.cache.video_seq_header {
            Some(f) => {
                replay.push(f.duplicate());
            },
            None => {},
        }
        match &entry.cache.audio_seq_header {
            Some(f) => {
                replay.push(f.duplicate());
            },
            None => {},
        }
        let ghost stickies = views_of(replay@);
        let nf = entry.cache.frames.len();
        let mut t: usize = 0;
        proof {
            assert(entry.cache.frames@.take(0) =~= Seq::<FrameData>::empty());
            assert(views_of(Seq::<FrameData>::empty()) =~= Seq::<FrameDataSpec>::empty());
            assert(stickies + Seq::<FrameDataSpec>::empty() =~= stickies);
        }
        while t < nf
            invariant
                t <= nf,
                nf == entry.cache.frames@.len(),
                views_of(replay@) == stickies + views_of(entry.cache.frames@.take(t as int)),
            decreases nf - t,
        {
            let ghost before = replay@;
            replay.push(entry.cache.frames[t].duplicate());
            t = t + 1;
            proof {
                crate::gop::lemma_views_of_push(before, replay@[replay@.len() - 1]);
                assert(replay@ =~= before.push(replay@[replay@.len() - 1]));
                let taken = entry.cache.frames@.take(t as int);
                assert(taken =~= entry.cache.frames@.take(t - 1).push(
                    entry.cache.frames@[t - 1],
                ));
                crate::gop::lemma_views_of_push(
                    entry.cache.frames@.take(t - 1),
                    entry.cache.frames@[t - 1],
                );
                assert(views_of(replay@) =~= stickies + views_of(taken));
            }
        }
        proof {
            assert(entry.cache.frames@.take(nf as int) =~= entry.cache.frames@);
            assert(views_of(replay@) =~= replay_views(entry.cache));
        }
        let ghost full_replay = views_of(replay@);
        // hand the replay over; a channel that rejects any of it loses
        // the subscription
        let mut ok = true;
        let ghost mut handed: Seq<FrameDataSpec> = Seq::empty();
        let total = replay.len();
        let mut src = replay;
        let mut done: usize = 0;
        while done < total
            invariant_except_break
                done <= total,
                total == full_replay.len(),
                src@.len() == total - done,
                views_of(src@) == full_replay.skip(done as int),
                ok,
                handed == full_replay.take(done as int),
            ensures
                ok ==> handed == full_replay,
                total == 0 ==> ok,
            decreases total - done,
        {
            let ghost src0 = src@;
            let f = src.remove(0);
            proof {
                crate::gop::lemma_views_of_drop_first(src0);
                assert(f@ == views_of(src0)[0]);
                assert(f@ == full_replay[done as int]);
                assert(src@ =~= src0.drop_first());
                assert(views_of(src@) =~= views_of(src0).drop_first());
                assert(views_of(src@) =~= full_replay.skip(done as int + 1));
            }
            let sent_ok = try_send_frame(&sender, f);
            if !sent_ok {
                ok = false;
                break ;
            }
            proof {
                handed = handed.push(full_replay[done as int]);
                assert(handed =~= full_replay.take(done as int + 1));
            }
            done = done + 1;
        }
        let attached = ok;
        if ok {
            let sub = SubscriberEntry {
                info,
                sender,
                sent: Ghost(full_replay),
                join_base: Ghost(full_replay),
                join_point: Ghost(entry.history@.len() as int),
            };
            entry.subscribers.push(sub);
        }
        self.streams[si] = entry;
        proof {
            assert(forall|u: int|
                0 <= u < self.streams@.len() ==> (#[trigger] self.streams@[u]).identifier@
                    == at_start[u].identifier@);
            lemma_stream_index_pointwise(self.streams@, at_start, *identifier, 0);
            if existed {
                assert(at_start =~= old(self).streams@);
            }
            assert(self.streams@[si as int].wf(self.gop_num)) by {
                let e = self.streams@[si as int];
                assert(e.history@.skip(e.history@.len() as int) =~= Seq::<FrameDataSpec>::empty());
                if attached {
                    assert(e.subscribers@[e.subscribers@.len() - 1].sent@ == e.subscribers@[
                        e.subscribers@.len() - 1].join_base@ + e.history@.skip(
                        e.subscribers@[e.subscribers@.len() - 1].join_point@,
                    ));
                }
            }
        }
        Ok(attached)
    }

    /// Detaches the subscriber with this id from the stream, dropping its
    /// channel; a stream left with neither publisher nor subscribers is
    /// destroyed. Silent when the stream or subscriber is absent.
    pub fn unsubscribe(&mut self, identifier: &StreamIdentifier, id: Uuid)
        requires
            old(self).wf(),
        ensures
            final(self).wf(),
            final(self).gop_num == old(self).gop_num,
            final(self).subscribe_waits == old(self).subscribe_waits,
            !spec_has_stream(old(self).streams@, *identifier) ==> final(self).streams@ == old(
                self,
            ).streams@,
            spec_has_stream(old(self).streams@, *identifier) ==> ({
                let si = stream_index_from(old(self).streams@, *identifier, 0);
                let subs0 = old(self).streams@[si].subscribers@;
                let sj = sub_index_from(subs0, id, 0);
                &&& (sj == subs0.len() ==> final(self).streams@ == old(self).streams@)
                &&& (sj < subs0.len() && (subs0.len() > 1 || old(
                    self,
                ).streams@[si].publisher is Some) ==> ({
                    &&& final(self).streams@.len() == old(self).streams@.len()
                    &&& (forall|t: int|
                        0 <= t < old(self).streams@.len() && t != si ==> final(self).streams@[t]
                            == old(self).streams@[t])
                    &&& final(self).streams@[si].identifier@ == old(self).streams@[si].identifier@
                    &&& final(self).streams@[si].publisher == old(self).streams@[si].publisher
                    &&& final(self).streams@[si].cache == old(self).streams@[si].cache
                    &&& final(self).streams@[si].subscribers@ == subs0.remove(sj)
                    &&& sub_index_from(final(self).streams@[si].subscribers@, id, 0) == final(self).streams@[si].subscribers@.len()
                }))
                &&& (sj < subs0.len() && subs0.len() == 1 && old(
                    self,
                ).streams@[si].publisher is None ==> final(self).streams@ == old(
                    self,
                ).streams@.remove(si))
            }),
    {
        proof {
            lemma_stream_index_from(self.streams@, *identifier, 0);
        }
        match self.find_stream(identifier) {
            Some(i) => {
                let mut entry = Self::blank_entry(self.gop_num);
                core::mem::swap(&mut entry, &mut self.streams[i]);
                let ghost entry0 = entry;
                proof {
                    lemma_sub_index_from(entry.subscribers@, id, 0);
                }
                match find_sub(&entry.subscribers, id) {
                    Some(j) => {
                        let _gone = entry.subscribers.remove(j);
                        let destroy = entry.subscribers.len() == 0 && matches!(
                            &entry.publisher,
                            None,
                        );
                        if destroy {
                            let blank = Self::blank_entry(self.gop_num);
                            self.streams[i] = blank;
                            let _entry_gone = self.streams.remove(i);
                            proof {
                                let olds = old(self).streams@;
                                let news = self.streams@;
                                assert(news =~= olds.remove(i as int));
                                assert forall|t: int| 0 <= t < news.len() implies (
                                #[trigger] news[t]).wf(self.gop_num) by {
                                    if t < i {
                                        assert(news[t] == olds[t]);
                                    } else {
                                        assert(news[t] == olds[t + 1]);
                                    }
                                }
                                assert forall|a: int, b: int|
                                    0 <= a < b < news.len() implies (
                                #[trigger] news[a]).identifier@ != (
                                #[trigger] news[b]).identifier@ by {
                                    if a < i {
                                        assert(news[a] == olds[a]);
                                    } else {
                                        assert(news[a] == olds[a + 1]);
                                    }
                                    if b < i {
                                        assert(news[b] == olds[b]);
                                    } else {
                                        assert(news[b] == olds[b + 1]);
                                    }
                                }
                            }
                        } else {
                            self.streams[i] = entry;
                            proof {
                                lemma_stream_index_pointwise(
                                    self.streams@,
                                    old(self).streams@,
                                    *identifier,
                                    0,
                                );
                                // with distinct ids, removing the one match
                                // leaves no subscriber with the id
                                let subs0 = entry0.subscribers@;
                                let subs_f = self.streams@[i as int].subscribers@;
                                assert(old(self).streams@[i as int].wf(self.gop_num));
                                assert forall|t: int|
                                    0 <= t < subs_f.len() implies (#[trigger] subs_f[t]).info.id
                                    != id by {
                                    if t < j {
                                        assert(subs_f[t] == subs0[t]);
                                    } else {
                                        assert(subs_f[t] == subs0[t + 1]);
                                        assert(subs0[j as int].info.id != subs0[t + 1].info.id);
                                    }
                                }
                                lemma_sub_index_none(subs_f, id, 0);
                                assert(self.streams@[i as int].wf(self.gop_num)) by {
                                    let e = self.streams@[i as int];
                                    let subs0 = entry0.subscribers@;
                                    assert forall|u: int|
                                        0 <= u < e.subscribers@.len() implies {
                                        &&& 0 <= (#[trigger] e.subscribers@[u]).join_point@
                                            <= e.history@.len()
                                        &&& e.subscribers@[u].sent@ == e.subscribers@[u].join_base@
                                            + e.history@.skip(e.subscribers@[u].join_point@)
                                    } by {
                                        if u < j {
                                            assert(e.subscribers@[u] == subs0[u]);
                                        } else {
                                            assert(e.subscribers@[u] == subs0[u + 1]);
                                        }
                                    }
                                }
                            }
                        }
                    },
                    None => {
                        self.streams[i] = entry;
                        proof {
                            assert(self.streams@ =~= old(self).streams@);
                        }
                    },
                }
            },
            None => {},
        }
    }
}


/// One subscriber carried through a broadcast: the same identity, channel
/// and attach records, its log gaining exactly the frame.
pub open spec fn sub_gained(a: SubscriberEntry, b: SubscriberEntry, fv: FrameDataSpec) -> bool {
    &&& b.info == a.info
    &&& b.sender == a.sender
    &&& b.sent@ == a.sent@ + seq![fv]
    &&& b.join_base@ == a.join_base@
    &&& b.join_point@ == a.join_point@
}

/// Whether `subs1` is exactly the order-preserving filter of `subs0` under
/// the keep flags, each kept subscriber's log gaining the frame: only the
/// subscribers whose flag is down are gone, and none is duplicated or
/// reordered.
pub open spec fn is_broadcast_filter(
    subs0: Seq<SubscriberEntry>,
    keep: Seq<bool>,
    fv: FrameDataSpec,
    subs1: Seq<SubscriberEntry>,
) -> bool
    decreases subs0.len(),
{
    if subs0.len() == 0 {
        subs1.len() == 0
    } else if keep.len() == 0 {
        false
    } else if keep[0] {
        &&& subs1.len() >= 1
        &&& sub_gained(subs0[0], subs1[0], fv)
        &&& is_broadcast_filter(subs0.drop_first(), keep.drop_first(), fv, subs1.drop_first())
    } else {
        is_broadcast_filter(subs0.drop_first(), keep.drop_first(), fv, subs1)
    }
}

/// How a broadcast relates the subscriber lists before and after: for some
/// per-subscriber keep flags (the channels' answers, which the hub cannot
/// promise), the survivors are exactly the order-preserving filter of the
/// old list, each with the frame appended to its log.
pub open spec fn subs_after_broadcast(
    subs0: Seq<SubscriberEntry>,
    subs1: Seq<SubscriberEntry>,
    fv: FrameDataSpec,
) -> bool {
    exists|keep: Seq<bool>|
        keep.len() == subs0.len() && #[trigger] is_broadcast_filter(subs0, keep, fv, subs1)
}

/// Extends a broadcast filter by one more subscriber at the back.
proof fn lemma_filter_snoc(
    subs0: Seq<SubscriberEntry>,
    keep: Seq<bool>,
    fv: FrameDataSpec,
    subs1: Seq<SubscriberEntry>,
    x: SubscriberEntry,
    kx: bool,
    y: SubscriberEntry,
)
    requires
        keep.len() == subs0.len(),
        is_broadcast_filter(subs0, keep, fv, subs1),
        kx ==> sub_gained(x, y, fv),
    ensures
        kx ==> is_broadcast_filter(subs0.push(x), keep.push(kx), fv, subs1.push(y)),
        !kx ==> is_broadcast_filter(subs0.push(x), keep.push(kx), fv, subs1),
    decreases subs0.len(),
{
    if subs0.len() == 0 {
        assert(subs0.push(x).drop_first() =~= Seq::<SubscriberEntry>::empty());
        assert(keep.push(kx).drop_first() =~= Seq::<bool>::empty());
        assert(subs0.push(x)[0] == x);
        assert(keep.push(kx)[0] == kx);
        assert(subs1.len() == 0);
        if kx {
            assert(subs1.push(y).drop_first() =~= Seq::<SubscriberEntry>::empty());
            assert(subs1.push(y)[0] == y);
            assert(is_broadcast_filter(
                Seq::<SubscriberEntry>::empty(),
                Seq::<bool>::empty(),
                fv,
                Seq::<SubscriberEntry>::empty(),
            ));
        } else {
            assert(is_broadcast_filter(
                Seq::<SubscriberEntry>::empty(),
                Seq::<bool>::empty(),
                fv,
                subs1,
            ));
        }
    } else {
        assert(subs0.push(x)[0] == subs0[0]);
        assert(keep.push(kx)[0] == keep[0]);
        assert(subs0.push(x).drop_first() =~= subs0.drop_first().push(x));
        assert(keep.push(kx).drop_first() =~= keep.drop_first().push(kx));
        if keep[0] {
            lemma_filter_snoc(
                subs0.drop_first(),
                keep.drop_first(),
                fv,
                subs1.drop_first(),
                x,
                kx,
                y,
            );
            if kx {
                assert(subs1.push(y).drop_first() =~= subs1.drop_first().push(y));
                assert(subs1.push(y)[0] == subs1[0]);
            }
        } else {
            lemma_filter_snoc(subs0.drop_first(), keep.drop_first(), fv, subs1, x, kx, y);
        }
    }
}

impl StreamHub {
    /// Routes one frame from the stream's publisher: the frame joins the
    /// stream's history and the GOP cache by its policy, and is handed to
    /// every subscriber's channel without blocking; a subscriber whose
    /// channel is full or closed is dropped rather than slow the stream.
    /// `StreamNotFound` when the stream has no live publisher.
    pub fn broadcast_frame(&mut self, identifier: &StreamIdentifier, frame: FrameData) -> (r:
        Result<(), StreamHubError>)
        requires
            old(self).wf(),
        ensures
            final(self).wf(),
            final(self).gop_num == old(self).gop_num,
            final(self).subscribe_waits == old(self).subscribe_waits,
            r is Ok <==> spec_has_publisher(old(self).streams@, *identifier),
            r matches Err(e) ==> e.value is StreamNotFound && final(self).streams@ == old(
                self,
            ).streams@,
            r is Ok ==> ({
                let si = stream_index_from(old(self).streams@, *identifier, 0);
                &&& final(self).streams@.len() == old(self).streams@.len()
                &&& (forall|t: int|
                    0 <= t < old(self).streams@.len() && t != si ==> final(self).streams@[t] == old(
                        self,
                    ).streams@[t])
                &&& final(self).streams@[si].identifier@ == old(self).streams@[si].identifier@
                &&& final(self).streams@[si].publisher == old(self).streams@[si].publisher
                &&& crate::gop::gop_updated(
                    old(self).streams@[si].cache,
                    final(self).streams@[si].cache,
                    frame,
                )
                &&& final(self).streams@[si].history@ == old(self).streams@[si].history@ + seq![
                    frame@,
                ]
                &&& subs_after_broadcast(
                    old(self).streams@[si].subscribers@,
                    final(self).streams@[si].subscribers@,
                    frame@,
                )
            }),
    {
        proof {
            lemma_stream_index_from(self.streams@, *identifier, 0);
        }
        let si: usize;
        match self.find_stream(identifier) {
            Some(i) => {
                si = i;
            },
            None => {
                return Err(StreamHubError { value: StreamHubErrorValue::StreamNotFound });
            },
        }
        if matches!(&self.streams[si].publisher, None) {
            return Err(StreamHubError { value: StreamHubErrorValue::StreamNotFound });
        }
        let ghost at_start = self.streams@;
        let mut entry = Self::blank_entry(self.gop_num);
        core::mem::swap(&mut entry, &mut self.streams[si]);
        let ghost entry0 = entry;
        let ghost fv = frame@;
        let ghost hist0 = entry.history@;
        let ghost newhist = hist0 + seq![fv];
        entry.history = Ghost(newhist);
        // hand the frame to every subscriber, non-blockingly; drop the
        // ones whose channel refuses it
        let mut src: Vec<SubscriberEntry> = Vec::new();
        core::mem::swap(&mut src, &mut entry.subscribers);
        let ghost subs0 = src@;
        let mut kept: Vec<SubscriberEntry> = Vec::new();
        let ghost mut gkeep: Seq<bool> = Seq::empty();
        let total = src.len();
        let mut done: usize = 0;
        proof {
            assert(subs0.take(0) =~= Seq::<SubscriberEntry>::empty());
        }
        while done < total
            invariant
                done <= total,
                total == subs0.len(),
                gkeep.len() == done,
                is_broadcast_filter(subs0.take(done as int), gkeep, fv, kept@),
                src@ == subs0.skip(done as int),
                forall|j: int|
                    0 <= j < subs0.len() ==> {
                        &&& 0 <= (#[trigger] subs0[j]).join_point@ <= hist0.len()
                        &&& subs0[j].sent@ == subs0[j].join_base@ + hist0.skip(
                            subs0[j].join_point@,
                        )
                    },
                newhist == hist0 + seq![fv],
                kept@.len() <= done,
                forall|j: int|
                    0 <= j < kept@.len() ==> exists|k: int|
                        {
                            &&& 0 <= k < subs0.len()
                            &&& (#[trigger] kept@[j]).info == subs0[k].info
                            &&& kept@[j].sender == subs0[k].sender
                            &&& kept@[j].sent@ == subs0[k].sent@ + seq![fv]
                            &&& kept@[j].join_base@ == subs0[k].join_base@
                            &&& kept@[j].join_point@ == subs0[k].join_point@
                        },
                forall|j: int|
                    0 <= j < kept@.len() ==> {
                        &&& 0 <= (#[trigger] kept@[j]).join_point@ <= newhist.len()
                        &&& kept@[j].sent@ == kept@[j].join_base@ + newhist.skip(
                            kept@[j].join_point@,
                        )
                    },
            decreases total - done,
        {
            let ghost src_before = src@;
            let mut sub = src.remove(0);
            proof {
                assert(sub == subs0[done as int]);
                assert(src@ =~= subs0.skip(done as int + 1));
            }
            let dup = frame.duplicate();
            let sent_ok = try_send_frame(&sub.sender, dup);
            proof {
                assert(subs0.take(done as int + 1).drop_last() =~= subs0.take(done as int));
                assert(subs0.take(done as int + 1) =~= subs0.take(done as int).push(
                    subs0[done as int],
                ));
            }
            if sent_ok {
                let ghost sent0 = sub.sent@;
                sub.sent = Ghost(sent0 + seq![fv]);
                proof {
                    let jp = sub.join_point@;
                    assert(subs0[done as int].sent@ == subs0[done as int].join_base@ + hist0.skip(
                        subs0[done as int].join_point@,
                    ));
                    assert(newhist.skip(jp) =~= hist0.skip(jp) + seq![fv]);
                    assert(sub.sent@ =~= sub.join_base@ + newhist.skip(jp));
                    assert(sub_gained(subs0[done as int], sub, fv));
                    lemma_filter_snoc(
                        subs0.take(done as int),
                        gkeep,
                        fv,
                        kept@,
                        subs0[done as int],
                        true,
                        sub,
                    );
                    gkeep = gkeep.push(true);
                }
                kept.push(sub);
            } else {
                proof {
                    lemma_filter_snoc(
                        subs0.take(done as int),
                        gkeep,
                        fv,
                        kept@,
                        subs0[done as int],
                        false,
                        sub,
                    );
                    gkeep = gkeep.push(false);
                }
            }
            done = done + 1;
        }
        entry.subscribers = kept;
        proof {
            assert(subs0.take(total as int) =~= subs0);
            assert(is_broadcast_filter(subs0, gkeep, fv, entry.subscribers@));
            lemma_filter_distinct(subs0, gkeep, fv, entry.subscribers@);
        }
        // fold the frame into the GOP cache
        entry.cache.save_frame_data(frame);
        self.streams[si] = entry;
        proof {
            assert(forall|u: int|
                0 <= u < self.streams@.len() ==> (#[trigger] self.streams@[u]).identifier@
                    == at_start[u].identifier@);
            lemma_stream_index_pointwise(self.streams@, at_start, *identifier, 0);
            assert(self.streams@[si as int].wf(self.gop_num));
        }
        Ok(())
    }
}


/// Keys with equal views index the same.
pub proof fn lemma_stream_index_same_id(
    streams: Seq<StreamEntry>,
    a: StreamIdentifier,
    b: StreamIdentifier,
    i: int,
)
    requires
        a@ == b@,
        0 <= i <= streams.len(),
    ensures
        stream_index_from(streams, a, i) == stream_index_from(streams, b, i),
    decreases streams.len() - i,
{
    if i < streams.len() && !id_eq(streams[i].identifier, a) {
        lemma_stream_index_same_id(streams, a, b, i + 1);
    }
}

/// With no matching subscriber id from `i` on, the index is the length.
pub proof fn lemma_sub_index_none(subs: Seq<SubscriberEntry>, id: Uuid, i: int)
    requires
        0 <= i <= subs.len(),
        forall|t: int| i <= t < subs.len() ==> (#[trigger] subs[t]).info.id != id,
    ensures
        sub_index_from(subs, id, i) == subs.len(),
    decreases subs.len() - i,
{
    if i < subs.len() {
        lemma_sub_index_none(subs, id, i + 1);
    }
}

/// Whether this stream's publisher carries the id.
pub open spec fn pub_matches(e: StreamEntry, id: Uuid) -> bool {
    e.publisher matches Some(p) && p.id == id
}

/// The first stream at or after `i` whose publisher or some subscriber
/// carries the id, or the length.
pub open spec fn kick_index_from(streams: Seq<StreamEntry>, id: Uuid, i: int) -> int
    decreases streams.len() - i,
{
    if i < 0 || i >= streams.len() {
        streams.len() as int
    } else if pub_matches(streams[i], id) || sub_index_from(streams[i].subscribers@, id, 0)
        < streams[i].subscribers@.len() {
        i
    } else {
        kick_index_from(streams, id, i + 1)
    }
}

/// `kick_index_from` points at a stream whose publisher or a subscriber
/// carries the id, or the end.
pub proof fn lemma_kick_index_from(streams: Seq<StreamEntry>, id: Uuid, i: int)
    requires
        0 <= i <= streams.len(),
    ensures
        i <= kick_index_from(streams, id, i) <= streams.len(),
        kick_index_from(streams, id, i) < streams.len() ==> (pub_matches(
            streams[kick_index_from(streams, id, i)],
            id,
        ) || sub_index_from(
            streams[kick_index_from(streams, id, i)].subscribers@,
            id,
            0,
        ) < streams[kick_index_from(streams, id, i)].subscribers@.len()),
    decreases streams.len() - i,
{
    if i < streams.len() && !(pub_matches(streams[i], id) || sub_index_from(
        streams[i].subscribers@,
        id,
        0,
    ) < streams[i].subscribers@.len()) {
        lemma_kick_index_from(streams, id, i + 1);
    }
}

impl StreamHub {
    /// Kicks the session with this id off: a matching publisher is
    /// force-unpublished (its stream's subscribers stay); otherwise a
    /// matching subscriber's channel is dropped. The first match in stream
    /// order is taken; silent when nothing matches.
    pub fn api_kick_client(&mut self, id: Uuid)
        requires
            old(self).wf(),
        ensures
            final(self).wf(),
            final(self).gop_num == old(self).gop_num,
            final(self).subscribe_waits == old(self).subscribe_waits,
            kick_post(old(self).streams@, final(self).streams@, id),
    {
        let n = self.streams.len();
        let mut i: usize = 0;
        while i < n
            invariant_except_break
                0 <= i <= n,
                n == self.streams@.len(),
                *self == *old(self),
                kick_index_from(self.streams@, id, 0) == kick_index_from(
                    self.streams@,
                    id,
                    i as int,
                ),
            ensures
                0 <= i <= n,
                n == self.streams@.len(),
                *self == *old(self),
                i < n ==> kick_index_from(self.streams@, id, 0) == i as int,
                i == n ==> kick_index_from(self.streams@, id, 0) == n as int,
            decreases n - i,
        {
            let pub_hit = match &self.streams[i].publisher {
                Some(p) => p.id.value == id.value,
                None => false,
            };
            let sub_hit = match find_sub(&self.streams[i].subscribers, id) {
                Some(_) => true,
                None => false,
            };
            proof {
                assert(pub_hit == pub_matches(self.streams@[i as int], id));
            }
            if pub_hit || sub_hit {
                proof {
                    assert(kick_index_from(self.streams@, id, i as int) == i);
                }
                break ;
            }
            i = i + 1;
            proof {
                if i == n {
                    assert(kick_index_from(self.streams@, id, i as int) == n);
                }
            }
        }
        if i == n {
            return ;
        }
        proof {
            lemma_kick_index_from(self.streams@, id, 0);
        }
        let ident = self.streams[i].identifier.duplicate();
        proof {
            // with distinct keys, a stream is found under its own key
            lemma_stream_index_from(self.streams@, ident, 0);
            let r = stream_index_from(self.streams@, ident, 0);
            if r != i as int {
                assert(self.streams@[r].identifier@ == self.streams@[i as int].identifier@);
                assert(false);
            }
        }
        let pub_hit = match &self.streams[i].publisher {
            Some(p) => p.id.value == id.value,
            None => false,
        };
        let ghost e = old(self).streams@[i as int];
        if pub_hit {
            self.unpublish(&ident);
            proof {
                lemma_stream_index_same_id(old(self).streams@, ident, e.identifier, 0);
                lemma_stream_index_same_id(self.streams@, ident, e.identifier, 0);
                assert(spec_has_stream(old(self).streams@, ident) == spec_has_stream(
                    old(self).streams@,
                    e.identifier,
                ));
                assert(spec_has_publisher(self.streams@, ident) == spec_has_publisher(
                    self.streams@,
                    e.identifier,
                ));
                assert(unpublish_post(old(self).streams@, self.streams@, e.identifier));
            }
        } else {
            self.unsubscribe(&ident, id);
            proof {
                lemma_stream_index_same_id(old(self).streams@, ident, e.identifier, 0);
                lemma_stream_index_same_id(self.streams@, ident, e.identifier, 0);
                assert(spec_has_stream(old(self).streams@, ident) == spec_has_stream(
                    old(self).streams@,
                    e.identifier,
                ));
                assert(unsubscribe_post(old(self).streams@, self.streams@, e.identifier, id));
            }
        }
    }
}

/// Everything the statistics API reports of one live stream.
pub struct StreamStat {
    /// The stream's key.
    pub identifier: StreamIdentifier,
    /// Whether a publisher holds it.
    pub has_publisher: bool,
    /// The publisher's id, when one holds it.
    pub publisher_id: Option<Uuid>,
    /// How many subscribers are attached.
    pub subscriber_count: usize,
    /// The attached subscribers' ids, in attach order.
    pub subscriber_ids: Vec<Uuid>,
}

/// Whether a stat reports this stream entry faithfully, its subscriber
/// list restricted to `only` when given.
pub open spec fn stat_matches(e: StreamEntry, st: StreamStat, only: Option<Uuid>) -> bool {
    &&& st.identifier@ == e.identifier@
    &&& st.has_publisher == (e.publisher is Some)
    &&& (e.publisher matches Some(p) ==> st.publisher_id == Some(p.id))
    &&& (e.publisher is None ==> st.publisher_id is None)
    &&& st.subscriber_count == e.subscribers@.len()
    &&& (only is None ==> st.subscriber_ids@ == Seq::new(
        e.subscribers@.len(),
        |j: int| e.subscribers@[j].info.id,
    ))
    &&& (only matches Some(u) ==> forall|j: int|
        0 <= j < st.subscriber_ids@.len() ==> (#[trigger] st.subscriber_ids@[j]) == u)
}

impl StreamHub {
    /// Reports one stream's statistics.
    fn stat_of(e: &StreamEntry, only: Option<Uuid>) -> (st: StreamStat)
        ensures
            stat_matches(*e, st, only),
    {
        let has_publisher = matches!(&e.publisher, Some(_));
        let publisher_id = match &e.publisher {
            Some(p) => Some(p.id),
            None => None,
        };
        let n = e.subscribers.len();
        let mut subscriber_ids: Vec<Uuid> = Vec::new();
        match only {
            None => {
                let mut j: usize = 0;
                while j < n
                    invariant
                        j <= n,
                        n == e.subscribers@.len(),
                        subscriber_ids@.len() == j,
                        forall|t: int|
                            0 <= t < j ==> (#[trigger] subscriber_ids@[t])
                                == e.subscribers@[t].info.id,
                    decreases n - j,
                {
                    subscriber_ids.push(e.subscribers[j].info.id);
                    j = j + 1;
                }
                proof {
                    assert(subscriber_ids@ =~= Seq::new(
                        e.subscribers@.len(),
                        |t: int| e.subscribers@[t].info.id,
                    ));
                }
            },
            Some(u) => {
                let mut j: usize = 0;
                while j < n
                    invariant
                        j <= n,
                        n == e.subscribers@.len(),
                        forall|t: int| 0 <= t < subscriber_ids@.len() ==> (
                        #[trigger] subscriber_ids@[t]) == u,
                    decreases n - j,
                {
                    if e.subscribers[j].info.id.value == u.value {
                        proof {
                            assert(e.subscribers@[j as int].info.id == u);
                        }
                        subscriber_ids.push(e.subscribers[j].info.id);
                    }
                    j = j + 1;
                }
            },
        }
        StreamStat {
            identifier: e.identifier.duplicate(),
            has_publisher,
            publisher_id,
            subscriber_count: n,
            subscriber_ids,
        }
    }

    /// Answers a statistics query; it always answers. With a key, the one
    /// matching stream is reported (its subscriber list narrowed to `uuid`
    /// when given); without one, every stream is reported in order, and
    /// `top_n` keeps only the n most subscribed, most subscribed first.
    pub fn api_statistic(
        &self,
        top_n: Option<usize>,
        identifier: Option<&StreamIdentifier>,
        uuid: Option<Uuid>,
    ) -> (r: Vec<StreamStat>)
        requires
            self.wf(),
        ensures
            identifier matches Some(id) ==> (({
                &&& (spec_has_stream(self.streams@, *id) ==> r@.len() == 1 && stat_matches(
                    self.streams@[stream_index_from(self.streams@, *id, 0)],
                    r@[0],
                    uuid,
                ))
                &&& (!spec_has_stream(self.streams@, *id) ==> r@.len() == 0)
            })),
            identifier is None && top_n is None ==> r@.len() == self.streams@.len() && (forall|
                i: int,
            |
                0 <= i < r@.len() ==> stat_matches(
                    #[trigger] self.streams@[i],
                    r@[i],
                    Option::<Uuid>::None,
                )),
            identifier is None ==> (top_n matches Some(n) ==> (({
                &&& r@.len() == (if (n as int) <= self.streams@.len() {
                    n as int
                } else {
                    self.streams@.len() as int
                })
                &&& (forall|a: int, b: int|
                    0 <= a < b < r@.len() ==> (#[trigger] r@[a]).subscriber_count >= (
                    #[trigger] r@[b]).subscriber_count)
                &&& (forall|a: int|
                    0 <= a < r@.len() ==> stat_reports_live(self.streams@, #[trigger] r@[a]))
                &&& (forall|a: int, b: int|
                    0 <= a < b < r@.len() ==> (#[trigger] r@[a]).identifier@ != (
                    #[trigger] r@[b]).identifier@)
            }))),
    {
        match identifier {
            Some(id) => {
                let mut out: Vec<StreamStat> = Vec::new();
                match self.find_stream(id) {
                    Some(i) => {
                        out.push(Self::stat_of(&self.streams[i], uuid));
                    },
                    None => {},
                }
                out
            },
            None => {
                let n_streams = self.streams.len();
                let mut all: Vec<StreamStat> = Vec::new();
                let mut i: usize = 0;
                while i < n_streams
                    invariant
                        i <= n_streams,
                        n_streams == self.streams@.len(),
                        all@.len() == i,
                        forall|t: int|
                            0 <= t < i ==> stat_matches(
                                #[trigger] self.streams@[t],
                                all@[t],
                                Option::<Uuid>::None,
                            ),
                    decreases n_streams - i,
                {
                    all.push(Self::stat_of(&self.streams[i], None));
                    i = i + 1;
                }
                match top_n {
                    None => all,
                    Some(n) => {
                        // most subscribed first, keeping only n
                        let mut rest = all;
                        let mut out: Vec<StreamStat> = Vec::new();
                        proof {
                            assert forall|a: int| 0 <= a < rest@.len() implies stat_reports_live(
                                self.streams@,
                                #[trigger] rest@[a],
                            ) by {
                                assert(stat_matches(
                                    self.streams@[a],
                                    rest@[a],
                                    Option::<Uuid>::None,
                                ));
                                lemma_stream_self_index(self.streams@, a);
                                lemma_stream_index_same_id(
                                    self.streams@,
                                    rest@[a].identifier,
                                    self.streams@[a].identifier,
                                    0,
                                );
                            }
                            assert forall|a: int, b: int| 0 <= a < b < rest@.len() implies (
                            #[trigger] rest@[a]).identifier@ != (
                            #[trigger] rest@[b]).identifier@ by {
                                assert(stat_matches(
                                    self.streams@[a],
                                    rest@[a],
                                    Option::<Uuid>::None,
                                ));
                                assert(stat_matches(
                                    self.streams@[b],
                                    rest@[b],
                                    Option::<Uuid>::None,
                                ));
                            }
                        }
                        while out.len() < n && rest.len() > 0
                            invariant
                                forall|a: int, b: int|
                                    0 <= a < b < out@.len() ==> (
                                    #[trigger] out@[a]).subscriber_count >= (
                                    #[trigger] out@[b]).subscriber_count,
                                forall|a: int, b: int|
                                    0 <= a < out@.len() && 0 <= b < rest@.len() ==> (
                                    #[trigger] out@[a]).subscriber_count >= (
                                    #[trigger] rest@[b]).subscriber_count,
                                out@.len() + rest@.len() == self.streams@.len(),
                                out@.len() <= n,
                                forall|a: int|
                                    0 <= a < out@.len() ==> stat_reports_live(
                                        self.streams@,
                                        #[trigger] out@[a],
                                    ),
                                forall|a: int|
                                    0 <= a < rest@.len() ==> stat_reports_live(
                                        self.streams@,
                                        #[trigger] rest@[a],
                                    ),
                                forall|a: int, b: int|
                                    0 <= a < b < out@.len() ==> (#[trigger] out@[a]).identifier@
                                        != (#[trigger] out@[b]).identifier@,
                                forall|a: int, b: int|
                                    0 <= a < b < rest@.len() ==> (#[trigger] rest@[a]).identifier@
                                        != (#[trigger] rest@[b]).identifier@,
                                forall|a: int, b: int|
                                    0 <= a < out@.len() && 0 <= b < rest@.len() ==> (
                                    #[trigger] out@[a]).identifier@ != (
                                    #[trigger] rest@[b]).identifier@,
                            decreases n - out@.len(),
                        {
                            // find the most subscribed remaining stat
                            let m = rest.len();
                            let mut best: usize = 0;
                            let mut j: usize = 1;
                            while j < m
                                invariant
                                    1 <= j <= m || (m <= 1 && j == 1),
                                    m == rest@.len(),
                                    best < m,
                                    forall|t: int|
                                        0 <= t < j && t < m ==> (
                                        #[trigger] rest@[t]).subscriber_count
                                            <= rest@[best as int].subscriber_count,
                                decreases m - j,
                            {
                                if rest[j].subscriber_count > rest[best].subscriber_count {
                                    best = j;
                                }
                                j = j + 1;
                            }
                            let ghost rest0 = rest@;
                            let picked = rest.remove(best);
                            let ghost out0 = out@;
                            proof {
                                assert(picked == rest0[best as int]);
                                assert forall|b: int| #![trigger rest@[b]] 0 <= b < rest@.len()
                                    implies rest@[b].subscriber_count <= picked.subscriber_count
                                    && rest@[b].identifier@ != picked.identifier@
                                    && stat_reports_live(self.streams@, rest@[b]) by {
                                    let src_idx: int = if b < best {
                                        b
                                    } else {
                                        b + 1
                                    };
                                    assert(rest@[b] == rest0[src_idx]);
                                }
                            }
                            out.push(picked);
                            proof {
                                assert forall|a: int| #![trigger out@[a]] 0 <= a < out@.len()
                                    implies stat_reports_live(self.streams@, out@[a]) by {
                                    if a < out0.len() {
                                        assert(out@[a] == out0[a]);
                                    } else {
                                        assert(out@[a] == rest0[best as int]);
                                    }
                                }
                                assert forall|a: int, b: int| 0 <= a < b < out@.len() implies (
                                #[trigger] out@[a]).identifier@ != (
                                #[trigger] out@[b]).identifier@ by {
                                    if b < out0.len() {
                                        assert(out@[a] == out0[a] && out@[b] == out0[b]);
                                    } else {
                                        assert(out@[a] == out0[a] && out@[b] == rest0[
                                            best as int]);
                                    }
                                }
                            }
                        }
                        out
                    },
                }
            },
        }
    }
}


/// One publish attempt, as `publish` promises it: accepted exactly when no
/// publisher holds the stream before, and one holds it after.
pub open spec fn publish_step(
    before: Seq<StreamEntry>,
    after: Seq<StreamEntry>,
    took: bool,
    id: StreamIdentifier,
) -> bool {
    &&& took == !spec_has_publisher(before, id)
    &&& spec_has_publisher(after, id)
}

/// First-publish-wins: along a run of publish attempts for one identifier
/// with no unpublish between them, exactly the first is accepted.
///
/// `states[i]` is the hub's stream list before attempt `i`; `accepted[i]`
/// says whether attempt `i` was accepted; each attempt behaves as
/// `publish` promises.
pub proof fn lemma_first_publish_wins(
    states: Seq<Seq<StreamEntry>>,
    accepted: Seq<bool>,
    id: StreamIdentifier,
)
    requires
        states.len() == accepted.len() + 1,
        accepted.len() >= 1,
        !spec_has_publisher(states[0], id),
        forall|i: int|
            0 <= i < accepted.len() ==> #[trigger] publish_step(
                states[i],
                states[i + 1],
                accepted[i],
                id,
            ),
    ensures
        accepted[0],
        forall|i: int| 1 <= i < accepted.len() ==> !(#[trigger] accepted[i]),
{
    assert(publish_step(states[0], states[1], accepted[0], id));
    assert forall|i: int| 1 <= i < accepted.len() implies !(#[trigger] accepted[i]) by {
        let j = i - 1;
        assert(publish_step(states[j], states[j + 1], accepted[j], id));
        assert(spec_has_publisher(states[i], id));
        assert(publish_step(states[i], states[i + 1], accepted[i], id));
    }
}

/// What every attached subscriber has been handed: exactly its replay (the
/// sticky headers and GOP cache of its attach moment) followed by every
/// frame published since, in order. A subscriber whose channel refused a
/// frame is no longer attached, so what it was handed is a prefix of this.
pub proof fn lemma_subscriber_receives_stream(hub: StreamHub, i: int, j: int)
    requires
        hub.wf(),
        0 <= i < hub.streams@.len(),
        0 <= j < hub.streams@[i].subscribers@.len(),
    ensures
        hub.streams@[i].subscribers@[j].sent@ == hub.streams@[i].subscribers@[j].join_base@
            + hub.streams@[i].history@.skip(hub.streams@[i].subscribers@[j].join_point@),
{
}

/// A control event, as the hub's single consumer task dispatches them.
#[allow(inconsistent_fields)]
pub enum StreamHubEvent {
    /// Register a publisher.
    Publish { identifier: StreamIdentifier, info: PublisherInfo },
    /// Withdraw a stream's publisher.
    UnPublish { identifier: StreamIdentifier },
    /// Attach a subscriber with its frame channel.
    Subscribe {
        identifier: StreamIdentifier,
        info: SubscriberInfo,
        sender: tokio::sync::mpsc::Sender<FrameData>,
    },
    /// Detach a subscriber.
    UnSubscribe { identifier: StreamIdentifier, id: Uuid },
    /// Query statistics.
    ApiStatistic { top_n: Option<usize>, identifier: Option<StreamIdentifier>, uuid: Option<Uuid> },
    /// Kick a publisher or subscriber off.
    ApiKickClient { id: Uuid },
}

/// What processing one event yields.
pub enum StreamHubEventResult {
    /// Publish accepted or refused.
    Publish(Result<(), StreamHubError>),
    /// Subscribe outcome: attached, dropped during replay, or refused.
    Subscribe(Result<bool, StreamHubError>),
    /// A statistics snapshot.
    Statistic(Vec<StreamStat>),
    /// Nothing to report.
    Done,
}

impl StreamHub {
    /// Applies one control event, dispatching on its kind; the per-kind
    /// behaviour is each method's contract.
    pub fn process_event(&mut self, event: StreamHubEvent) -> (r: StreamHubEventResult)
        requires
            old(self).wf(),
        ensures
            final(self).wf(),
            final(self).gop_num == old(self).gop_num,
            final(self).subscribe_waits == old(self).subscribe_waits,
            event matches StreamHubEvent::Publish { identifier, info } ==> (r matches
                StreamHubEventResult::Publish(p) && publish_post(
                old(self).streams@,
                final(self).streams@,
                identifier,
                info,
                p,
            )),
            event matches StreamHubEvent::UnPublish { identifier } ==> (r is Done
                && unpublish_post(old(self).streams@, final(self).streams@, identifier)),
            event matches StreamHubEvent::Subscribe { identifier, info, sender } ==> (r matches
                StreamHubEventResult::Subscribe(p) && subscribe_post(
                old(self).streams@,
                final(self).streams@,
                old(self).subscribe_waits,
                identifier,
                info,
                sender,
                p,
            )),
            event matches StreamHubEvent::ApiStatistic { top_n, identifier, uuid } ==> (r matches
                StreamHubEventResult::Statistic(stats) && final(self).streams@ == old(
                self,
            ).streams@ && statistic_post(
                old(self).streams@,
                top_n,
                identifier,
                uuid,
                stats@,
            )),
            event matches StreamHubEvent::UnSubscribe { identifier, id } ==> (r is Done
                && unsubscribe_post(old(self).streams@, final(self).streams@, identifier, id)),
            event matches StreamHubEvent::ApiKickClient { id } ==> (r is Done && kick_post(
                old(self).streams@,
                final(self).streams@,
                id,
            )),
    {
        match event {
            StreamHubEvent::Publish { identifier, info } => {
                let p = self.publish(&identifier, info);
                StreamHubEventResult::Publish(p)
            },
            StreamHubEvent::UnPublish { identifier } => {
                self.unpublish(&identifier);
                StreamHubEventResult::Done
            },
            StreamHubEvent::Subscribe { identifier, info, sender } => {
                let p = self.subscribe(&identifier, info, sender);
                StreamHubEventResult::Subscribe(p)
            },
            StreamHubEvent::UnSubscribe { identifier, id } => {
                self.unsubscribe(&identifier, id);
                StreamHubEventResult::Done
            },
            StreamHubEvent::ApiStatistic { top_n, identifier, uuid } => {
                let stats = self.api_statistic(top_n, identifier.as_ref(), uuid);
                StreamHubEventResult::Statistic(stats)
            },
            StreamHubEvent::ApiKickClient { id } => {
                self.api_kick_client(id);
                StreamHubEventResult::Done
            },
        }
    }
}

} // verus!
