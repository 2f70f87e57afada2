//! FLV container: tag muxing to a byte stream, the byte-level grammar of a
//! valid FLV file, and demuxing of audio/video tag bodies.

use vstd::prelude::*;

use crate::bytesio::{be3, be4, from_be3, BytesWriter};

verus! {

/// Length in bytes of an FLV tag header.
pub const HEADER_LENGTH: u32 = 11;

/// The tag type byte of an audio tag.
pub const TAG_TYPE_AUDIO: u8 = 8;

/// The tag type byte of a video tag.
pub const TAG_TYPE_VIDEO: u8 = 9;

/// The tag type byte of a script-data (AMF0 metadata) tag.
pub const TAG_TYPE_SCRIPT_DATA_AMF: u8 = 18;

/// The nine FLV file header bytes: "FLV", version 1, audio+video flags,
/// header size 9.
pub open spec fn flv_header_bytes() -> Seq<u8> {
    seq![0x46u8, 0x4cu8, 0x56u8, 0x01u8, 0x05u8, 0x00u8, 0x00u8, 0x00u8, 0x09u8]
}

/// One FLV tag, the unit the muxer emits.
pub struct FlvTag {
    /// Audio, video or script data.
    pub tag_type: u8,
    /// Milliseconds, the publisher's 32-bit timestamp.
    pub timestamp: u32,
    /// The tag body.
    pub data: Vec<u8>,
}

impl FlvTag {
    /// A tag whose body length fits the 24-bit size field.
    pub open spec fn wf(&self) -> bool {
        self.data@.len() < 0x1000000
    }
}

/// The 11 header bytes of a tag: type, 24-bit body size, 24-bit timestamp
/// with an extension byte for the high 8 bits, and a zero stream id.
pub open spec fn tag_header_bytes(tag_type: u8, data_size: u32, timestamp: u32) -> Seq<u8> {
    seq![tag_type] + be3(data_size) + be3(timestamp & 0xffffff) + seq![((timestamp >> 24) & 0xff) as u8]
        + be3(0)
}

/// A whole tag: header then body.
pub open spec fn tag_bytes(t: FlvTag) -> Seq<u8> {
    tag_header_bytes(t.tag_type, t.data@.len() as u32, t.timestamp) + t.data@
}

/// A tag followed by its previous-tag-size trailer, which holds the tag's
/// total length (11 header bytes plus the body).
pub open spec fn tag_chunk(t: FlvTag) -> Seq<u8> {
    tag_bytes(t) + be4((11 + t.data@.len()) as u32)
}

/// The body of an FLV file after the leading previous-tag-size zero:
/// each tag followed by its previous-tag-size trailer, in order.
pub open spec fn flv_tags_bytes(tags: Seq<FlvTag>) -> Seq<u8>
    decreases tags.len(),
{
    if tags.len() == 0 {
        Seq::<u8>::empty()
    } else {
        tag_chunk(tags[0]) + flv_tags_bytes(tags.drop_first())
    }
}

/// A complete, valid FLV file for the given tags: header, a zero
/// previous-tag-size, then each tag with its previous-tag-size trailer.
pub open spec fn flv_file_bytes(tags: Seq<FlvTag>) -> Seq<u8> {
    flv_header_bytes() + be4(0) + flv_tags_bytes(tags)
}

/// `flv_tags_bytes` distributes over concatenation.
pub proof fn lemma_flv_tags_bytes_app(a: Seq<FlvTag>, b: Seq<FlvTag>)
    ensures
        flv_tags_bytes(a + b) == flv_tags_bytes(a) + flv_tags_bytes(b),
    decreases a.len(),
{
    if a.len() == 0 {
        assert(a + b =~= b);
        assert(flv_tags_bytes(a) + flv_tags_bytes(b) =~= flv_tags_bytes(b));
    } else {
        assert((a + b).drop_first() =~= a.drop_first() + b);
        lemma_flv_tags_bytes_app(a.drop_first(), b);
        assert(flv_tags_bytes(a + b) =~= flv_tags_bytes(a) + flv_tags_bytes(b));
    }
}

/// Muxes FLV tags into a byte stream while tracking the running timestamp
/// delta used when a recording is closed.
pub struct FlvMuxer {
    /// The byte stream produced so far and not yet extracted.
    pub writer: BytesWriter,
    /// Whether no non-zero timestamp has been seen yet.
    pub first_flag: bool,
    /// The first non-zero timestamp seen (zero before any).
    pub timestamp_start: u32,
    /// Current timestamp minus the first non-zero timestamp seen.
    pub timestamp_delta: u32,
}

impl FlvMuxer {
    /// A fresh muxer with an empty output buffer.
    pub fn new() -> (m: FlvMuxer)
        ensures
            m.writer@ == Seq::<u8>::empty(),
            m.first_flag,
            m.timestamp_start == 0,
            m.timestamp_delta == 0,
    {
        FlvMuxer { writer: BytesWriter::new(), first_flag: true, timestamp_start: 0, timestamp_delta: 0 }
    }

    /// Appends the nine FLV file header bytes.
    pub fn write_flv_header(&mut self)
        ensures
            final(self).writer@ == old(self).writer@ + flv_header_bytes(),
            final(self).first_flag == old(self).first_flag,
            final(self).timestamp_start == old(self).timestamp_start,
            final(self).timestamp_delta == old(self).timestamp_delta,
    {
        let header: [u8; 9] = [0x46, 0x4c, 0x56, 0x01, 0x05, 0x00, 0x00, 0x00, 0x09];
        self.writer.write(header.as_slice());
        proof {
            assert(header@ =~= flv_header_bytes());
        }
    }

    /// Appends an 11-byte tag header and updates the timestamp delta.
    ///
    /// A non-zero timestamp seen first (or seen below the recorded start)
    /// becomes the new start; the delta is the distance from the start.
    pub fn write_flv_tag_header(&mut self, tag_type: u8, data_size: u32, timestamp: u32)
        ensures
            final(self).writer@ == old(self).writer@ + tag_header_bytes(
                tag_type,
                data_size,
                timestamp,
            ),
            timestamp == 0 ==> {
                &&& final(self).first_flag == old(self).first_flag
                &&& final(self).timestamp_start == old(self).timestamp_start
                &&& final(self).timestamp_delta == old(self).timestamp_delta
            },
            timestamp > 0 && (old(self).first_flag || timestamp < old(self).timestamp_start) ==> {
                &&& final(self).timestamp_start == timestamp
                &&& final(self).timestamp_delta == 0
            },
            timestamp > 0 && !old(self).first_flag && timestamp >= old(self).timestamp_start ==> {
                &&& final(self).timestamp_start == old(self).timestamp_start
                &&& final(self).timestamp_delta == timestamp - old(self).timestamp_start
            },
            timestamp > 0 ==> !final(self).first_flag,
    {
        if timestamp > 0 {
            if self.first_flag {
                self.timestamp_start = timestamp;
                self.first_flag = false;
            } else if timestamp < self.timestamp_start {
                self.timestamp_start = timestamp;
            }
            self.timestamp_delta = timestamp - self.timestamp_start;
        }
        self.writer.write_u8(tag_type);
        self.writer.write_u24(data_size);
        self.writer.write_u24(timestamp & 0xffffff);
        self.writer.write_u8(((timestamp >> 24) & 0xff) as u8);
        self.writer.write_u24(0);
        proof {
            assert(self.writer@ =~= old(self).writer@ + tag_header_bytes(
                tag_type,
                data_size,
                timestamp,
            ));
        }
    }

    /// Appends a tag body unchanged.
    pub fn write_flv_tag_body(&mut self, body: &Vec<u8>)
        ensures
            final(self).writer@ == old(self).writer@ + body@,
            final(self).first_flag == old(self).first_flag,
            final(self).timestamp_start == old(self).timestamp_start,
            final(self).timestamp_delta == old(self).timestamp_delta,
    {
        self.writer.write(body.as_slice());
    }

    /// Appends a previous-tag-size trailer.
    pub fn write_previous_tag_size(&mut self, size: u32)
        ensures
            final(self).writer@ == old(self).writer@ + be4(size),
            final(self).first_flag == old(self).first_flag,
            final(self).timestamp_start == old(self).timestamp_start,
            final(self).timestamp_delta == old(self).timestamp_delta,
    {
        self.writer.write_u32(size);
    }
}

impl Default for FlvMuxer {
    /// Same as `FlvMuxer::new`.
    fn default() -> (m: FlvMuxer)
        ensures
            m.writer@ == Seq::<u8>::empty(),
            m.first_flag,
            m.timestamp_start == 0,
            m.timestamp_delta == 0,
    {
        FlvMuxer::new()
    }
}

/// Muxes a whole tag list into one valid FLV file.
///
/// The output is exactly the grammar `flv_file_bytes`: header, then for each
/// tag a previous-tag-size equal to the preceding tag's total length
/// (11 + data size), an 11-byte tag header, and the body.
pub fn mux_flv_file(tags: &Vec<FlvTag>) -> (out: Vec<u8>)
    requires
        forall|i: int| 0 <= i < tags@.len() ==> #[trigger] tags@[i].wf(),
    ensures
        out@ == flv_file_bytes(tags@),
{
    let mut muxer = FlvMuxer::new();
    muxer.write_flv_header();
    muxer.write_previous_tag_size(0);
    let mut i: usize = 0;
    while i < tags.len()
        invariant
            i <= tags@.len(),
            forall|j: int| 0 <= j < tags@.len() ==> #[trigger] tags@[j].wf(),
            muxer.writer@ == flv_header_bytes() + be4(0) + flv_tags_bytes(tags@.take(i as int)),
        decreases tags@.len() - i,
    {
        let tag = &tags[i];
        proof {
            assert(tags@[i as int].wf());
        }
        let data_size = tag.data.len() as u32;
        muxer.write_flv_tag_header(tag.tag_type, data_size, tag.timestamp);
        muxer.write_flv_tag_body(&tag.data);
        muxer.write_previous_tag_size(data_size + HEADER_LENGTH);
        i = i + 1;
        proof {
            let taken = tags@.take(i as int);
            assert(taken.drop_last() =~= tags@.take(i - 1));
            assert(taken =~= tags@.take(i - 1) + seq![tags@[i - 1]]);
            lemma_flv_tags_bytes_app(tags@.take(i - 1), seq![tags@[i - 1]]);
            assert(seq![tags@[i - 1]].drop_first() =~= Seq::<FlvTag>::empty());
            assert(flv_tags_bytes(Seq::<FlvTag>::empty()) =~= Seq::<u8>::empty());
            assert(flv_tags_bytes(seq![tags@[i - 1]]) =~= tag_chunk(tags@[i - 1]));
            assert(muxer.writer@ =~= flv_header_bytes() + be4(0) + flv_tags_bytes(taken));
        }
    }
    proof {
        assert(tags@.take(tags@.len() as int) =~= tags@);
    }
    let mut m = muxer;
    m.writer.extract_current_bytes()
}

/// The trailing end-tag byte sequence appended to a recording on graceful
/// close: an empty video tag shell carrying the final timestamp delta.
pub fn flv_file_end_tag(timestamp_delta: u32) -> (out: Vec<u8>)
    ensures
        out@ == seq![0x09u8, 0x00u8, 0x00u8, 0x05u8] + be3(timestamp_delta) + seq![
            0x00u8,
            0x00u8,
            0x00u8,
            0x00u8,
            0x17u8,
            0x02u8,
            0x00u8,
            0x00u8,
            0x00u8,
            0x00u8,
            0x00u8,
            0x00u8,
            0x10u8,
        ],
{
    let mut w = BytesWriter::new();
    let head: [u8; 4] = [0x09, 0x00, 0x00, 0x05];
    w.write(head.as_slice());
    w.write_u24(timestamp_delta);
    let tail: [u8; 13] = [0x00, 0x00, 0x00, 0x00, 0x17, 0x02, 0x00, 0x00, 0x00, 0x00, 0x00, 0x00, 0x10];
    w.write(tail.as_slice());
    proof {
        assert(head@ =~= seq![0x09u8, 0x00u8, 0x00u8, 0x05u8]);
        assert(tail@ =~= seq![
            0x00u8,
            0x00u8,
            0x00u8,
            0x00u8,
            0x17u8,
            0x02u8,
            0x00u8,
            0x00u8,
            0x00u8,
            0x00u8,
            0x00u8,
            0x00u8,
            0x10u8,
        ]);
    }
    w.extract_current_bytes()
}

/// Whether a video tag body carries a keyframe (frame type 1 in the high
/// nibble of the first byte).
pub open spec fn spec_is_video_keyframe(data: Seq<u8>) -> bool {
    data.len() >= 1 && (data[0] >> 4) == 1
}

/// Whether a video tag body is an AVC sequence header: a keyframe with
/// codec id 7 and AVC packet type 0.
pub open spec fn spec_is_video_seq_header(data: Seq<u8>) -> bool {
    data.len() >= 2 && (data[0] >> 4) == 1 && (data[0] & 0x0f) == 7 && data[1] == 0
}

/// Whether an audio tag body is an AAC sequence header: sound format 10
/// with AAC packet type 0.
pub open spec fn spec_is_audio_seq_header(data: Seq<u8>) -> bool {
    data.len() >= 2 && (data[0] >> 4) == 10 && data[1] == 0
}

/// Checks for a video keyframe.
pub fn is_video_keyframe(data: &Vec<u8>) -> (r: bool)
    ensures
        r == spec_is_video_keyframe(data@),
{
    data.len() >= 1 && (data[0] >> 4) == 1
}

/// Checks for an AVC sequence header.
pub fn is_video_seq_header(data: &Vec<u8>) -> (r: bool)
    ensures
        r == spec_is_video_seq_header(data@),
{
    data.len() >= 2 && (data[0] >> 4) == 1 && (data[0] & 0x0f) == 7 && data[1] == 0
}

/// Checks for an AAC sequence header.
pub fn is_audio_seq_header(data: &Vec<u8>) -> (r: bool)
    ensures
        r == spec_is_audio_seq_header(data@),
{
    data.len() >= 2 && (data[0] >> 4) == 10 && data[1] == 0
}

/// What a video tag body declares about its frame.
pub struct VideoTagInfo {
    /// 1 keyframe, 2 inter frame, and so on.
    pub frame_type: u8,
    /// 7 is AVC.
    pub codec_id: u8,
    /// For AVC: 0 sequence header, 1 NALU, 2 end of sequence.
    pub avc_packet_type: u8,
    /// For AVC NALUs: the 24-bit composition-time offset, so that
    /// pts = dts + cts.
    pub composition_time: u32,
}

/// Error raised when a tag body is too short to demux.
#[derive(Debug)]
pub struct FlvDemuxerError {
    pub value: FlvDemuxerErrorValue,
}

/// The kinds of demuxer errors.
#[derive(Debug)]
pub enum FlvDemuxerErrorValue {
    /// The tag body ends before the fields the header promises.
    NotEnoughBytes,
}

/// Demuxes a video tag body into its frame descriptor.
///
/// Every body of at least one byte parses; AVC bodies need the packet type
/// and composition time, five bytes in all.
pub fn demux_video_tag(data: &Vec<u8>) -> (r: Result<VideoTagInfo, FlvDemuxerError>)
    ensures
        r is Ok <==> (data@.len() >= 1 && ((data@[0] & 0x0f) == 7 ==> data@.len() >= 5)),
        r matches Ok(info) ==> {
            &&& info.frame_type == data@[0] >> 4
            &&& info.codec_id == data@[0] & 0x0f
            &&& info.codec_id == 7 ==> info.avc_packet_type == data@[1] && info.composition_time
                == from_be3(data@[2], data@[3], data@[4])
            &&& info.codec_id != 7 ==> info.avc_packet_type == 0 && info.composition_time == 0
        },
{
    if data.len() < 1 {
        return Err(FlvDemuxerError { value: FlvDemuxerErrorValue::NotEnoughBytes });
    }
    let frame_type = data[0] >> 4;
    let codec_id = data[0] & 0x0f;
    if codec_id == 7 {
        if data.len() < 5 {
            return Err(FlvDemuxerError { value: FlvDemuxerErrorValue::NotEnoughBytes });
        }
        let avc_packet_type = data[1];
        let composition_time = ((data[2] as u32) << 16u32) | ((data[3] as u32) << 8u32) | (
        data[4] as u32);
        Ok(VideoTagInfo { frame_type, codec_id, avc_packet_type, composition_time })
    } else {
        Ok(VideoTagInfo { frame_type, codec_id, avc_packet_type: 0, composition_time: 0 })
    }
}

/// What an audio tag body declares about its sound.
pub struct AudioTagInfo {
    /// 10 is AAC.
    pub sound_format: u8,
    /// 0 through 3: 5.5, 11, 22, 44 kHz.
    pub sound_rate: u8,
    /// 0 eight-bit, 1 sixteen-bit samples.
    pub sound_size: u8,
    /// 0 mono, 1 stereo.
    pub sound_type: u8,
    /// For AAC: 0 sequence header, 1 raw frame.
    pub aac_packet_type: u8,
}

/// Demuxes an audio tag body into its sound descriptor.
///
/// Every body of at least one byte parses; AAC bodies need the packet type,
/// two bytes in all.
pub fn demux_audio_tag(data: &Vec<u8>) -> (r: Result<AudioTagInfo, FlvDemuxerError>)
    ensures
        r is Ok <==> (data@.len() >= 1 && ((data@[0] >> 4) == 10 ==> data@.len() >= 2)),
        r matches Ok(info) ==> {
            &&& info.sound_format == data@[0] >> 4
            &&& info.sound_rate == (data@[0] >> 2) & 0x03
            &&& info.sound_size == (data@[0] >> 1) & 0x01
            &&& info.sound_type == data@[0] & 0x01
            &&& info.sound_format == 10 ==> info.aac_packet_type == data@[1]
            &&& info.sound_format != 10 ==> info.aac_packet_type == 0
        },
{
    if data.len() < 1 {
        return Err(FlvDemuxerError { value: FlvDemuxerErrorValue::NotEnoughBytes });
    }
    let sound_format = data[0] >> 4;
    let sound_rate = (data[0] >> 2) & 0x03;
    let sound_size = (data[0] >> 1) & 0x01;
    let sound_type = data[0] & 0x01;
    if sound_format == 10 {
        if data.len() < 2 {
            return Err(FlvDemuxerError { value: FlvDemuxerErrorValue::NotEnoughBytes });
        }
        Ok(AudioTagInfo { sound_format, sound_rate, sound_size, sound_type, aac_packet_type: data[1] })
    } else {
        Ok(AudioTagInfo { sound_format, sound_rate, sound_size, sound_type, aac_packet_type: 0 })
    }
}

} // verus!
