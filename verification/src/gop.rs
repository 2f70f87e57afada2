//! Media frames and the GOP cache: the hub's buffer of recent frames, kept
//! so a late subscriber starts at a keyframe, together with the sticky
//! sequence headers and metadata that every subscriber must see first.

use vstd::prelude::*;

use crate::flv::{spec_is_audio_seq_header, spec_is_video_keyframe, spec_is_video_seq_header};

verus! {

/// One media frame as routed by the hub, tagged by kind. The timestamp is
/// the publisher's 32-bit RTMP timestamp in milliseconds.
pub enum FrameData {
    /// An audio tag body.
    Audio { timestamp: u32, data: Vec<u8> },
    /// A video tag body.
    Video { timestamp: u32, data: Vec<u8> },
    /// A script-data (metadata) tag body.
    MetaData { timestamp: u32, data: Vec<u8> },
    /// Out-of-band media description bytes.
    MediaInfo { timestamp: u32, data: Vec<u8> },
}

/// The mathematical shape of a frame.
#[verifier::ext_equal]
pub enum FrameDataSpec {
    /// An audio tag body.
    Audio { timestamp: u32, data: Seq<u8> },
    /// A video tag body.
    Video { timestamp: u32, data: Seq<u8> },
    /// A script-data (metadata) tag body.
    MetaData { timestamp: u32, data: Seq<u8> },
    /// Out-of-band media description bytes.
    MediaInfo { timestamp: u32, data: Seq<u8> },
}

impl View for FrameData {
    type V = FrameDataSpec;

    open spec fn view(&self) -> FrameDataSpec {
        match *self {
            FrameData::Audio { timestamp, data } => FrameDataSpec::Audio {
                timestamp,
                data: data@,
            },
            FrameData::Video { timestamp, data } => FrameDataSpec::Video {
                timestamp,
                data: data@,
            },
            FrameData::MetaData { timestamp, data } => FrameDataSpec::MetaData {
                timestamp,
                data: data@,
            },
            FrameData::MediaInfo { timestamp, data } => FrameDataSpec::MediaInfo {
                timestamp,
                data: data@,
            },
        }
    }
}

impl FrameData {
    /// An equal frame, bytes copied.
    pub fn duplicate(&self) -> (r: FrameData)
        ensures
            r@ == self@,
    {
        match self {
            FrameData::Audio { timestamp, data } => FrameData::Audio {
                timestamp: *timestamp,
                data: data.clone(),
            },
            FrameData::Video { timestamp, data } => FrameData::Video {
                timestamp: *timestamp,
                data: data.clone(),
            },
            FrameData::MetaData { timestamp, data } => FrameData::MetaData {
                timestamp: *timestamp,
                data: data.clone(),
            },
            FrameData::MediaInfo { timestamp, data } => FrameData::MediaInfo {
                timestamp: *timestamp,
                data: data.clone(),
            },
        }
    }
}

/// The views of the frames, in order.
pub open spec fn views_of(fs: Seq<FrameData>) -> Seq<FrameDataSpec> {
    fs.map(|i: int, f: FrameData| f@)
}

/// Whether a frame is a video sequence header (AVC decoder configuration).
pub open spec fn spec_frame_is_video_seq_header(f: FrameData) -> bool {
    match f {
        FrameData::Video { timestamp: _, data } => spec_is_video_seq_header(data@),
        _ => false,
    }
}

/// Whether a frame is an audio sequence header (AAC configuration).
pub open spec fn spec_frame_is_audio_seq_header(f: FrameData) -> bool {
    match f {
        FrameData::Audio { timestamp: _, data } => spec_is_audio_seq_header(data@),
        _ => false,
    }
}

/// Whether a frame opens a GOP: a video keyframe that is not a sequence
/// header.
pub open spec fn spec_frame_is_gop_keyframe(f: FrameData) -> bool {
    match f {
        FrameData::Video { timestamp: _, data } => spec_is_video_keyframe(data@)
            && !spec_is_video_seq_header(data@),
        _ => false,
    }
}

/// How many GOP-opening keyframes a frame sequence holds.
pub open spec fn count_keyframes(fs: Seq<FrameData>) -> nat
    decreases fs.len(),
{
    if fs.len() == 0 {
        0
    } else {
        (if spec_frame_is_gop_keyframe(fs[0]) {
            1nat
        } else {
            0nat
        }) + count_keyframes(fs.drop_first())
    }
}

/// Keyframe counting distributes over concatenation.
pub proof fn lemma_count_keyframes_app(a: Seq<FrameData>, b: Seq<FrameData>)
    ensures
        count_keyframes(a + b) == count_keyframes(a) + count_keyframes(b),
    decreases a.len(),
{
    if a.len() == 0 {
        assert(a + b =~= b);
    } else {
        assert((a + b).drop_first() =~= a.drop_first() + b);
        lemma_count_keyframes_app(a.drop_first(), b);
    }
}

/// A sequence without GOP-opening keyframes counts zero.
pub proof fn lemma_count_keyframes_none(fs: Seq<FrameData>)
    requires
        forall|i: int| 0 <= i < fs.len() ==> !spec_frame_is_gop_keyframe(#[trigger] fs[i]),
    ensures
        count_keyframes(fs) == 0,
    decreases fs.len(),
{
    if fs.len() > 0 {
        lemma_count_keyframes_none(fs.drop_first());
    }
}

/// The index of the first GOP-opening keyframe at or after `i`, or the
/// length when none follows.
pub open spec fn next_keyframe_from(fs: Seq<FrameData>, i: int) -> int
    decreases fs.len() - i,
{
    if i < 0 || i >= fs.len() {
        fs.len() as int
    } else if spec_frame_is_gop_keyframe(fs[i]) {
        i
    } else {
        next_keyframe_from(fs, i + 1)
    }
}

/// What remains of the cache after the oldest GOP is dropped: the frames
/// from the second keyframe on.
pub open spec fn drop_oldest_gop(fs: Seq<FrameData>) -> Seq<FrameData> {
    fs.skip(next_keyframe_from(fs, 1))
}

/// `next_keyframe_from` points at a keyframe or the end, and nothing
/// between `i` and it is a keyframe.
pub proof fn lemma_next_keyframe_from(fs: Seq<FrameData>, i: int)
    requires
        0 <= i <= fs.len(),
    ensures
        i <= next_keyframe_from(fs, i) <= fs.len(),
        next_keyframe_from(fs, i) < fs.len() ==> spec_frame_is_gop_keyframe(
            fs[next_keyframe_from(fs, i)],
        ),
        forall|t: int|
            i <= t < next_keyframe_from(fs, i) ==> !spec_frame_is_gop_keyframe(#[trigger] fs[t]),
    decreases fs.len() - i,
{
    if i < fs.len() && !spec_frame_is_gop_keyframe(fs[i]) {
        lemma_next_keyframe_from(fs, i + 1);
    }
}

/// Dropping the oldest GOP removes exactly one keyframe, when the cache
/// starts with one.
pub proof fn lemma_drop_oldest_gop_count(fs: Seq<FrameData>)
    requires
        fs.len() > 0,
        spec_frame_is_gop_keyframe(fs[0]),
    ensures
        count_keyframes(drop_oldest_gop(fs)) == count_keyframes(fs) - 1,
        drop_oldest_gop(fs).len() > 0 ==> spec_frame_is_gop_keyframe(drop_oldest_gop(fs)[0]),
{
    let j = next_keyframe_from(fs, 1);
    lemma_next_keyframe_from(fs, 1);
    let head = fs.take(j);
    let tail = fs.skip(j);
    assert(head + tail =~= fs);
    lemma_count_keyframes_app(head, tail);
    assert(head.drop_first() =~= fs.subrange(1, j));
    assert(forall|t: int|
        0 <= t < head.drop_first().len() ==> !spec_frame_is_gop_keyframe(
            #[trigger] head.drop_first()[t],
        ));
    lemma_count_keyframes_none(head.drop_first());
    assert(count_keyframes(head) == 1);
}

/// How one `save_frame_data` step relates the cache before and after
/// folding in `frame`: the cache policy, as a relation.
pub open spec fn gop_updated(c0: GopCache, c1: GopCache, frame: FrameData) -> bool {
    &&& c1.gop_num == c0.gop_num
    &&& (spec_frame_is_video_seq_header(frame) ==> {
        &&& c1.video_seq_header == Some(frame)
        &&& c1.audio_seq_header == c0.audio_seq_header
        &&& c1.metadata == c0.metadata
        &&& c1.frames@.len() == 0
    })
    &&& (spec_frame_is_audio_seq_header(frame) ==> {
        &&& c1.audio_seq_header == Some(frame)
        &&& c1.video_seq_header == c0.video_seq_header
        &&& c1.metadata == c0.metadata
        &&& c1.frames@.len() == 0
    })
    &&& (frame is MetaData ==> {
        &&& c1.metadata == Some(frame)
        &&& c1.video_seq_header == c0.video_seq_header
        &&& c1.audio_seq_header == c0.audio_seq_header
        &&& c1.frames@ == c0.frames@
    })
    &&& (frame is MediaInfo ==> c1 == c0)
    &&& (spec_frame_is_gop_keyframe(frame) ==> {
        &&& c1.video_seq_header == c0.video_seq_header
        &&& c1.audio_seq_header == c0.audio_seq_header
        &&& c1.metadata == c0.metadata
        &&& c1.frames@ == (if c0.gop_num == 0 {
            c0.frames@
        } else if count_keyframes(c0.frames@) == c0.gop_num {
            drop_oldest_gop(c0.frames@) + seq![frame]
        } else {
            c0.frames@ + seq![frame]
        })
    })
    &&& ((frame is Audio || frame is Video) && !spec_frame_is_video_seq_header(frame)
        && !spec_frame_is_audio_seq_header(frame) && !spec_frame_is_gop_keyframe(frame) ==> {
        &&& c1.video_seq_header == c0.video_seq_header
        &&& c1.audio_seq_header == c0.audio_seq_header
        &&& c1.metadata == c0.metadata
        &&& c1.frames@ == (if c0.frames@.len() > 0 {
            c0.frames@ + seq![frame]
        } else {
            c0.frames@
        })
    })
}

/// The hub's per-stream frame buffer: the sticky headers every subscriber
/// is handed first, and up to `gop_num` groups of pictures of recent
/// frames so a late subscriber starts at a keyframe.
pub struct GopCache {
    /// How many complete GOPs to keep; zero means no caching.
    pub gop_num: usize,
    /// The cached frames, oldest first.
    pub frames: Vec<FrameData>,
    /// The current AVC sequence header, replayed before any frame.
    pub video_seq_header: Option<FrameData>,
    /// The current AAC sequence header, replayed before any frame.
    pub audio_seq_header: Option<FrameData>,
    /// The most recent script-data metadata frame.
    pub metadata: Option<FrameData>,
}

impl GopCache {
    /// The cache invariant: with no caching the buffer stays empty; a
    /// non-empty buffer starts at a keyframe; never more keyframes than
    /// `gop_num`.
    pub open spec fn wf(&self) -> bool {
        &&& (self.gop_num == 0 ==> self.frames@.len() == 0)
        &&& (self.frames@.len() > 0 ==> spec_frame_is_gop_keyframe(self.frames@[0]))
        &&& count_keyframes(self.frames@) <= self.gop_num
        &&& (self.frames@.len() > 0 ==> count_keyframes(self.frames@) >= 1)
    }

    /// An empty cache keeping `gop_num` GOPs.
    pub fn new(gop_num: usize) -> (c: GopCache)
        ensures
            c.wf(),
            c.gop_num == gop_num,
            c.frames@.len() == 0,
            c.video_seq_header is None,
            c.audio_seq_header is None,
            c.metadata is None,
    {
        GopCache {
            gop_num,
            frames: Vec::new(),
            video_seq_header: None,
            audio_seq_header: None,
            metadata: None,
        }
    }

    /// Empties the cache and forgets the sticky headers, as when the
    /// publisher disconnects.
    pub fn reset(&mut self)
        ensures
            final(self).wf(),
            final(self).gop_num == old(self).gop_num,
            final(self).frames@.len() == 0,
            final(self).video_seq_header is None,
            final(self).audio_seq_header is None,
            final(self).metadata is None,
    {
        self.frames = Vec::new();
        self.video_seq_header = None;
        self.audio_seq_header = None;
        self.metadata = None;
        proof {
            assert(count_keyframes(self.frames@) == 0);
        }
    }

    /// Folds one frame in, by the cache policy: a sequence header replaces
    /// its sticky slot and restarts the buffer; metadata replaces the
    /// sticky metadata; a keyframe opens a new GOP, evicting the oldest
    /// when `gop_num` are already held; any other media frame joins the
    /// open GOP, or is discarded when none is open.
    pub fn save_frame_data(&mut self, frame: FrameData)
        requires
            old(self).wf(),
        ensures
            final(self).wf(),
            gop_updated(*old(self), *final(self), frame),
    {
        let is_vsh: bool;
        let is_ash: bool;
        let is_kf: bool;
        match &frame {
            FrameData::Video { timestamp: _, data } => {
                let sh = crate::flv::is_video_seq_header(data);
                let kf = crate::flv::is_video_keyframe(data);
                is_vsh = sh;
                is_ash = false;
                is_kf = kf && !sh;
            },
            FrameData::Audio { timestamp: _, data } => {
                is_vsh = false;
                is_ash = crate::flv::is_audio_seq_header(data);
                is_kf = false;
            },
            _ => {
                is_vsh = false;
                is_ash = false;
                is_kf = false;
            },
        }
        proof {
            assert(is_vsh == spec_frame_is_video_seq_header(frame));
            assert(is_ash == spec_frame_is_audio_seq_header(frame));
            assert(is_kf == spec_frame_is_gop_keyframe(frame));
            assert(count_keyframes(Seq::<FrameData>::empty()) == 0);
        }
        if is_vsh {
            self.video_seq_header = Some(frame);
            self.frames = Vec::new();
            proof {
                assert(count_keyframes(self.frames@) == 0);
            }
            return ;
        }
        if is_ash {
            self.audio_seq_header = Some(frame);
            self.frames = Vec::new();
            proof {
                assert(count_keyframes(self.frames@) == 0);
            }
            return ;
        }
        let is_meta = matches!(&frame, FrameData::MetaData { .. });
        if is_meta {
            self.metadata = Some(frame);
            return ;
        }
        let is_media_info = matches!(&frame, FrameData::MediaInfo { .. });
        if is_media_info {
            return ;
        }
        if is_kf {
            if self.gop_num == 0 {
                return ;
            }
            let n = self.count_keyframes_exec();
            if n == self.gop_num {
                self.drop_oldest_gop_exec();
                proof {
                    lemma_drop_oldest_gop_count(old(self).frames@);
                }
            }
            let ghost before = self.frames@;
            self.frames.push(frame);
            proof {
                assert(self.frames@.drop_last() =~= before);
                assert(self.frames@ =~= before + seq![frame]);
                lemma_count_keyframes_app(before, seq![frame]);
                assert(seq![frame].drop_first() =~= Seq::<FrameData>::empty());
                assert(count_keyframes(seq![frame]) == 1);
            }
            return ;
        }
        // an ordinary media frame joins the open GOP, if one is open
        if self.frames.len() > 0 {
            let ghost before = self.frames@;
            self.frames.push(frame);
            proof {
                assert(self.frames@ =~= before + seq![frame]);
                lemma_count_keyframes_app(before, seq![frame]);
                assert(seq![frame].drop_first() =~= Seq::<FrameData>::empty());
                assert(count_keyframes(seq![frame]) == 0);
            }
        }
    }

    /// Counts the GOP-opening keyframes held.
    fn count_keyframes_exec(&self) -> (n: usize)
        ensures
            n == count_keyframes(self.frames@),
    {
        let mut n: usize = 0;
        let mut i: usize = 0;
        proof {
            assert(self.frames@.skip(0) =~= self.frames@);
            lemma_count_keyframes_app(self.frames@.take(0), self.frames@.skip(0));
            assert(self.frames@.take(0) =~= Seq::<FrameData>::empty());
        }
        while i < self.frames.len()
            invariant
                i <= self.frames@.len(),
                n <= i,
                count_keyframes(self.frames@) == n + count_keyframes(self.frames@.skip(i as int)),
            decreases self.frames@.len() - i,
        {
            let kf = match &self.frames[i] {
                FrameData::Video { timestamp: _, data } => crate::flv::is_video_keyframe(data)
                    && !crate::flv::is_video_seq_header(data),
                _ => false,
            };
            proof {
                let rest = self.frames@.skip(i as int);
                assert(rest[0] == self.frames@[i as int]);
                assert(rest.drop_first() =~= self.frames@.skip(i as int + 1));
                assert(kf == spec_frame_is_gop_keyframe(self.frames@[i as int]));
            }
            if kf {
                n = n + 1;
            }
            i = i + 1;
        }
        proof {
            assert(self.frames@.skip(self.frames@.len() as int) =~= Seq::<FrameData>::empty());
        }
        n
    }

    /// Removes the oldest GOP: everything before the second keyframe.
    fn drop_oldest_gop_exec(&mut self)
        requires
            old(self).wf(),
            old(self).frames@.len() > 0,
        ensures
            final(self).frames@ == drop_oldest_gop(old(self).frames@),
            final(self).gop_num == old(self).gop_num,
            final(self).video_seq_header == old(self).video_seq_header,
            final(self).audio_seq_header == old(self).audio_seq_header,
            final(self).metadata == old(self).metadata,
    {
        let len = self.frames.len();
        let mut j: usize = 1;
        while j < len
            invariant_except_break
                1 <= j <= len,
                len == self.frames@.len(),
                next_keyframe_from(self.frames@, 1) == next_keyframe_from(self.frames@, j as int),
            ensures
                1 <= j <= len,
                len == self.frames@.len(),
                next_keyframe_from(self.frames@, 1) == j as int,
            decreases len - j,
        {
            let kf = match &self.frames[j] {
                FrameData::Video { timestamp: _, data } => crate::flv::is_video_keyframe(data)
                    && !crate::flv::is_video_seq_header(data),
                _ => false,
            };
            proof {
                assert(kf == spec_frame_is_gop_keyframe(self.frames@[j as int]));
            }
            if kf {
                proof {
                    assert(next_keyframe_from(self.frames@, j as int) == j);
                }
                break ;
            }
            j = j + 1;
            proof {
                if j == len {
                    assert(next_keyframe_from(self.frames@, j as int) == len);
                }
            }
        }
        let ghost frames0 = self.frames@;
        let mut q: usize = 0;
        while q < j
            invariant
                q <= j,
                j <= frames0.len(),
                self.frames@ == frames0.skip(q as int),
                self.gop_num == old(self).gop_num,
                self.video_seq_header == old(self).video_seq_header,
                self.audio_seq_header == old(self).audio_seq_header,
                self.metadata == old(self).metadata,
            decreases j - q,
        {
            let _dropped = self.frames.remove(0);
            proof {
                assert(frames0.skip(q as int).drop_first() =~= frames0.skip(q as int + 1));
            }
            q = q + 1;
        }
    }
}


/// Mapping to views distributes over push.
pub proof fn lemma_views_of_push(fs: Seq<FrameData>, f: FrameData)
    ensures
        views_of(fs.push(f)) == views_of(fs) + seq![f@],
{
    assert(views_of(fs.push(f)) =~= views_of(fs) + seq![f@]);
}

/// Mapping to views commutes with dropping the first element.
pub proof fn lemma_views_of_drop_first(fs: Seq<FrameData>)
    requires
        fs.len() > 0,
    ensures
        views_of(fs.drop_first()) == views_of(fs).drop_first(),
        views_of(fs)[0] == fs[0]@,
{
    assert(views_of(fs.drop_first()) =~= views_of(fs).drop_first());
}


/// The GOP cache law: however frames were folded in, a non-empty cache
/// starts at a keyframe, and it never holds more keyframes than `gop_num`.
/// `save_frame_data` maintains this; here it is stated once.
pub proof fn lemma_gop_cache_invariant(c: GopCache)
    requires
        c.wf(),
    ensures
        c.frames@.len() > 0 ==> spec_frame_is_gop_keyframe(c.frames@[0]),
        count_keyframes(c.frames@) <= c.gop_num,
{
}

} // verus!
