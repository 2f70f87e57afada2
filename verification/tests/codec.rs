//! Byte-level codec behaviour: AMF0 round trips, FLV muxing, and the RTMP
//! chunk layer.

use xiu::amf0::{amf0_read_value, amf0_write_value, Amf0Property, Amf0Value};
use xiu::bytesio::{BytesReader, BytesWriter};
use xiu::chunk::{ChunkPacketizer, ChunkUnpacketizer, RtmpMessage};
use xiu::flv::{
    demux_audio_tag, demux_video_tag, flv_file_end_tag, is_audio_seq_header, is_video_keyframe,
    is_video_seq_header, mux_flv_file, FlvMuxer, FlvTag,
};

fn round_trip(v: Amf0Value) -> Amf0Value {
    let mut w = BytesWriter::new();
    amf0_write_value(&mut w, &v).expect("value should be supported");
    let mut bytes = w;
    let encoded = bytes.extract_current_bytes();
    let mut r = BytesReader::new(encoded);
    amf0_read_value(&mut r).expect("encoded value should decode")
}

#[test]
fn amf0_number_round_trip() {
    let v = Amf0Value::Number(1.0f64.to_bits());
    assert_eq!(round_trip(v), Amf0Value::Number(1.0f64.to_bits()));
}

#[test]
fn amf0_number_exact_bytes() {
    let mut w = BytesWriter::new();
    amf0_write_value(&mut w, &Amf0Value::Number(1.0f64.to_bits())).unwrap();
    let bytes = w.extract_current_bytes();
    assert_eq!(bytes, vec![0x00, 0x3f, 0xf0, 0x00, 0x00, 0x00, 0x00, 0x00, 0x00]);
}

#[test]
fn amf0_boolean_round_trip() {
    assert_eq!(round_trip(Amf0Value::Boolean(true)), Amf0Value::Boolean(true));
    assert_eq!(round_trip(Amf0Value::Boolean(false)), Amf0Value::Boolean(false));
}

#[test]
fn amf0_string_round_trip() {
    let v = Amf0Value::Utf8String(b"onMetaData".to_vec());
    assert_eq!(round_trip(v), Amf0Value::Utf8String(b"onMetaData".to_vec()));
}

#[test]
fn amf0_null_round_trip() {
    assert_eq!(round_trip(Amf0Value::Null), Amf0Value::Null);
}

#[test]
fn amf0_object_round_trip() {
    let v = Amf0Value::Object(vec![
        Amf0Property { key: b"app".to_vec(), value: Amf0Value::Utf8String(b"live".to_vec()) },
        Amf0Property { key: b"fps".to_vec(), value: Amf0Value::Number(30.0f64.to_bits()) },
    ]);
    let expected = Amf0Value::Object(vec![
        Amf0Property { key: b"app".to_vec(), value: Amf0Value::Utf8String(b"live".to_vec()) },
        Amf0Property { key: b"fps".to_vec(), value: Amf0Value::Number(30.0f64.to_bits()) },
    ]);
    assert_eq!(round_trip(v), expected);
}

#[test]
fn amf0_nested_round_trip() {
    let inner = Amf0Value::StrictArray(vec![
        Amf0Value::Number(2.5f64.to_bits()),
        Amf0Value::Boolean(false),
    ]);
    let v = Amf0Value::EcmaArray(vec![Amf0Property { key: b"list".to_vec(), value: inner }]);
    let expected = Amf0Value::EcmaArray(vec![Amf0Property {
        key: b"list".to_vec(),
        value: Amf0Value::StrictArray(vec![
            Amf0Value::Number(2.5f64.to_bits()),
            Amf0Value::Boolean(false),
        ]),
    }]);
    assert_eq!(round_trip(v), expected);
}

#[test]
fn amf0_unknown_marker_is_error() {
    let mut r = BytesReader::new(vec![0xff, 0x00]);
    assert!(amf0_read_value(&mut r).is_err());
}

#[test]
fn amf0_truncated_number_is_error() {
    let mut r = BytesReader::new(vec![0x00, 0x01, 0x02]);
    assert!(amf0_read_value(&mut r).is_err());
}

#[test]
fn amf0_oversized_string_is_rejected() {
    let v = Amf0Value::Utf8String(vec![0x61; 70000]);
    let mut w = BytesWriter::new();
    assert!(amf0_write_value(&mut w, &v).is_err());
    assert_eq!(w.extract_current_bytes(), Vec::<u8>::new());
}

#[test]
fn amf0_empty_key_is_rejected() {
    let v = Amf0Value::Object(vec![Amf0Property { key: Vec::new(), value: Amf0Value::Null }]);
    let mut w = BytesWriter::new();
    assert!(amf0_write_value(&mut w, &v).is_err());
}

#[test]
fn flv_mux_file_exact_bytes() {
    let tags = vec![FlvTag { tag_type: 9, timestamp: 0x12, data: vec![0xaa, 0xbb] }];
    let out = mux_flv_file(&tags);
    let mut expected = vec![
        0x46, 0x4c, 0x56, 0x01, 0x05, 0x00, 0x00, 0x00, 0x09, // header
        0x00, 0x00, 0x00, 0x00, // previous tag size 0
        0x09, // video tag
        0x00, 0x00, 0x02, // data size 2
        0x00, 0x00, 0x12, // timestamp low
        0x00, // timestamp extended
        0x00, 0x00, 0x00, // stream id
    ];
    expected.extend_from_slice(&[0xaa, 0xbb]);
    expected.extend_from_slice(&[0x00, 0x00, 0x00, 0x0d]); // previous tag size 13
    assert_eq!(out, expected);
}

#[test]
fn flv_end_tag_exact_bytes() {
    let out = flv_file_end_tag(0x010203);
    assert_eq!(
        out,
        vec![
            0x09, 0x00, 0x00, 0x05, 0x01, 0x02, 0x03, 0x00, 0x00, 0x00, 0x00, 0x17, 0x02, 0x00,
            0x00, 0x00, 0x00, 0x00, 0x00, 0x10
        ]
    );
}

#[test]
fn flv_muxer_timestamp_delta() {
    let mut m = FlvMuxer::new();
    m.write_flv_tag_header(9, 0, 1000);
    assert_eq!(m.timestamp_delta, 0);
    m.write_flv_tag_header(9, 0, 1500);
    assert_eq!(m.timestamp_delta, 500);
    // a timestamp below the start resets the start
    m.write_flv_tag_header(9, 0, 800);
    assert_eq!(m.timestamp_delta, 0);
    m.write_flv_tag_header(9, 0, 900);
    assert_eq!(m.timestamp_delta, 100);
}

#[test]
fn flv_demux_video_avc() {
    // keyframe, AVC, NALU, composition time 5
    let data = vec![0x17, 0x01, 0x00, 0x00, 0x05, 0x99];
    let info = demux_video_tag(&data).unwrap();
    assert_eq!(info.frame_type, 1);
    assert_eq!(info.codec_id, 7);
    assert_eq!(info.avc_packet_type, 1);
    assert_eq!(info.composition_time, 5);
}

#[test]
fn flv_demux_video_too_short_is_error() {
    assert!(demux_video_tag(&Vec::new()).is_err());
    // AVC needs five bytes
    assert!(demux_video_tag(&vec![0x17, 0x01]).is_err());
}

#[test]
fn flv_demux_audio_aac() {
    // AAC, 44 kHz, 16-bit, stereo, raw frame
    let data = vec![0xaf, 0x01, 0x21];
    let info = demux_audio_tag(&data).unwrap();
    assert_eq!(info.sound_format, 10);
    assert_eq!(info.sound_rate, 3);
    assert_eq!(info.sound_size, 1);
    assert_eq!(info.sound_type, 1);
    assert_eq!(info.aac_packet_type, 1);
}

#[test]
fn flv_header_detectors() {
    assert!(is_video_seq_header(&vec![0x17, 0x00]));
    assert!(!is_video_seq_header(&vec![0x17, 0x01]));
    assert!(is_video_keyframe(&vec![0x17, 0x01]));
    assert!(!is_video_keyframe(&vec![0x27, 0x01]));
    assert!(is_audio_seq_header(&vec![0xaf, 0x00]));
    assert!(!is_audio_seq_header(&vec![0xaf, 0x01]));
}

fn message(csid: u8, timestamp: u32, type_id: u8, msid: u32, payload: Vec<u8>) -> RtmpMessage {
    RtmpMessage { csid, timestamp, msg_type_id: type_id, msg_stream_id: msid, payload }
}

fn chunk_round_trip(chunk_size: u32, payload_len: usize, timestamp: u32) {
    let payload: Vec<u8> = (0..payload_len).map(|i| (i % 251) as u8).collect();
    let msg = message(3, timestamp, 9, 1, payload.clone());
    let mut packetizer = ChunkPacketizer::new();
    packetizer.set_chunk_size(chunk_size);
    let bytes = packetizer.packetize(&msg);
    let mut unpacketizer = ChunkUnpacketizer::new();
    unpacketizer.update_max_chunk_size(chunk_size);
    let msgs = unpacketizer.read_chunks(&bytes).unwrap();
    assert_eq!(msgs.len(), 1);
    assert_eq!(msgs[0], message(3, timestamp, 9, 1, payload));
}

#[test]
fn chunk_round_trip_size_one() {
    chunk_round_trip(1, 16, 42);
}

#[test]
fn chunk_round_trip_size_default() {
    chunk_round_trip(128, 1000, 42);
}

#[test]
fn chunk_round_trip_size_large() {
    chunk_round_trip(60000, 8192, 42);
}

#[test]
fn chunk_round_trip_extended_timestamp() {
    chunk_round_trip(128, 300, 0x0100_0000);
}

#[test]
fn chunk_header_compression_round_trip() {
    // three messages on one chunk stream: format 0, then 2, then 1
    let m1 = message(4, 100, 9, 1, vec![1, 2, 3, 4]);
    let m2 = message(4, 150, 9, 1, vec![5, 6, 7, 8]);
    let m3 = message(4, 200, 8, 1, vec![9, 10]);
    let mut p = ChunkPacketizer::new();
    let mut bytes = p.packetize(&m1);
    bytes.extend_from_slice(&p.packetize(&m2));
    bytes.extend_from_slice(&p.packetize(&m3));
    let mut u = ChunkUnpacketizer::new();
    let msgs = u.read_chunks(&bytes).unwrap();
    assert_eq!(msgs, vec![m1, m2, m3]);
}

#[test]
fn chunk_size_change_mid_stream() {
    // a message at the default size, then SetChunkSize(4096) and a large one
    let m1 = message(5, 10, 9, 1, vec![0x11; 256]);
    let m2 = message(5, 20, 9, 1, vec![0x22; 8192]);
    let mut p = ChunkPacketizer::new();
    let mut u = ChunkUnpacketizer::new();
    let bytes1 = p.packetize(&m1);
    assert_eq!(u.read_chunks(&bytes1).unwrap(), vec![m1]);
    p.set_chunk_size(4096);
    u.update_max_chunk_size(4096);
    let bytes2 = p.packetize(&m2);
    assert_eq!(u.read_chunks(&bytes2).unwrap(), vec![m2]);
}

#[test]
fn chunk_partial_delivery() {
    // bytes arriving in two pieces complete one message
    let m = message(3, 7, 8, 1, vec![9; 300]);
    let mut p = ChunkPacketizer::new();
    let bytes = p.packetize(&m);
    let mut u = ChunkUnpacketizer::new();
    let (a, b) = bytes.split_at(10);
    assert_eq!(u.read_chunks(a).unwrap(), vec![]);
    assert_eq!(u.read_chunks(b).unwrap(), vec![m]);
}

#[test]
fn chunk_unsupported_csid_is_error() {
    let mut u = ChunkUnpacketizer::new();
    // basic header with chunk stream id 1 announces the three-byte form
    assert!(u.read_chunks(&[0x01, 0x00, 0x00]).is_err());
}

#[test]
fn chunk_missing_context_is_error() {
    let mut u = ChunkUnpacketizer::new();
    // a format-3 chunk on a stream that never saw a full header
    assert!(u.read_chunks(&[0xc3]).is_err());
}

#[test]
fn chunk_interleaved_streams() {
    // two messages interleaved on different chunk streams
    let ma = message(3, 1, 9, 1, vec![0xaa; 200]);
    let mb = message(4, 2, 8, 1, vec![0xbb; 200]);
    let mut pa = ChunkPacketizer::new();
    let mut pb = ChunkPacketizer::new();
    let bytes_a = pa.packetize(&ma);
    let bytes_b = pb.packetize(&mb);
    // first chunk of each (128 body bytes after the 12-byte header),
    // then the continuations
    let mut mixed = Vec::new();
    mixed.extend_from_slice(&bytes_a[..140]);
    mixed.extend_from_slice(&bytes_b[..140]);
    mixed.extend_from_slice(&bytes_a[140..]);
    mixed.extend_from_slice(&bytes_b[140..]);
    let mut u = ChunkUnpacketizer::new();
    let msgs = u.read_chunks(&mixed).unwrap();
    assert_eq!(msgs, vec![ma, mb]);
}
