//! RTMP chunk layer: serializing logical messages into chunked byte
//! streams (format 0/1/2/3 header compression, extended timestamps) and
//! reassembling them, with the round-trip law relating the two.

use vstd::prelude::*;

use crate::bytesio::{
    be3, be4, from_be3, from_be4, from_le4, le4, lemma_be3_roundtrip, lemma_be4_roundtrip,
    lemma_from_be3_bound, lemma_le4_roundtrip, BytesWriter,
};

verus! {

/// One logical RTMP message as carried over the chunk layer.
#[derive(PartialEq, Eq, Debug)]
pub struct RtmpMessage {
    /// Chunk stream id, 2 through 63 (the one-byte basic header form).
    pub csid: u8,
    /// The 32-bit timestamp in milliseconds.
    pub timestamp: u32,
    /// The message type id (8 audio, 9 video, 18 script data, 20 command).
    pub msg_type_id: u8,
    /// The message stream id, written little-endian.
    pub msg_stream_id: u32,
    /// The message body.
    pub payload: Vec<u8>,
}

/// The mathematical shape of a message.
#[verifier::ext_equal]
pub struct RtmpMessageSpec {
    /// Chunk stream id.
    pub csid: u8,
    /// The 32-bit timestamp.
    pub timestamp: u32,
    /// The message type id.
    pub msg_type_id: u8,
    /// The message stream id.
    pub msg_stream_id: u32,
    /// The message body.
    pub payload: Seq<u8>,
}

impl View for RtmpMessage {
    type V = RtmpMessageSpec;

    open spec fn view(&self) -> RtmpMessageSpec {
        RtmpMessageSpec {
            csid: self.csid,
            timestamp: self.timestamp,
            msg_type_id: self.msg_type_id,
            msg_stream_id: self.msg_stream_id,
            payload: self.payload@,
        }
    }
}

/// A packable message: a one-byte chunk stream id and a body length that
/// fits the 24-bit length field.
pub open spec fn wf_msg(m: RtmpMessageSpec) -> bool {
    2 <= m.csid < 64 && m.payload.len() < 0x1000000
}

/// The smaller of two lengths.
pub open spec fn min_len(a: int, b: int) -> int {
    if a <= b {
        a
    } else {
        b
    }
}

/// The format-0 (full) chunk message header for a fresh message, with the
/// extended-timestamp field when the timestamp does not fit 24 bits.
pub open spec fn fmt0_header(m: RtmpMessageSpec) -> Seq<u8> {
    if m.timestamp >= 0xFFFFFF {
        seq![m.csid] + be3(0xFFFFFF) + be3(m.payload.len() as u32) + seq![m.msg_type_id] + le4(
            m.msg_stream_id,
        ) + be4(m.timestamp)
    } else {
        seq![m.csid] + be3(m.timestamp) + be3(m.payload.len() as u32) + seq![m.msg_type_id] + le4(
            m.msg_stream_id,
        )
    }
}

/// The format-3 (continuation) chunk header: when the message's header
/// carried an extended timestamp, each continuation repeats it.
pub open spec fn fmt3_header(csid: u8, ext: bool, ts: u32) -> Seq<u8> {
    if ext {
        seq![(0xC0 | csid) as u8] + be4(ts)
    } else {
        seq![(0xC0 | csid) as u8]
    }
}

/// The continuation chunks carrying `rest`, each at most `c` bytes of body
/// behind a format-3 header.
pub open spec fn cont_chunks(rest: Seq<u8>, csid: u8, ext: bool, ts: u32, c: nat) -> Seq<u8>
    decreases rest.len(),
{
    if rest.len() == 0 || c < 1 {
        Seq::<u8>::empty()
    } else {
        let k = min_len(c as int, rest.len() as int);
        fmt3_header(csid, ext, ts) + rest.take(k) + cont_chunks(rest.skip(k), csid, ext, ts, c)
    }
}

/// The chunked bytes of a message on a chunk stream with no history: a
/// format-0 header, the first at-most-`c` body bytes, then continuations.
pub open spec fn pack_fresh(m: RtmpMessageSpec, c: nat) -> Seq<u8> {
    let k = min_len(c as int, m.payload.len() as int);
    let ext = m.timestamp >= 0xFFFFFF;
    fmt0_header(m) + m.payload.take(k) + cont_chunks(m.payload.skip(k), m.csid, ext, m.timestamp, c)
}

/// Parses the continuation chunks of a message needing `needed` more body
/// bytes: the reassembled bytes and how many input bytes they took.
#[verifier::opaque]
pub open spec fn unpack_cont(
    s: Seq<u8>,
    csid: u8,
    ext: bool,
    ts: u32,
    needed: nat,
    c: nat,
) -> Option<(Seq<u8>, int)>
    decreases needed,
{
    if needed == 0 {
        Some((Seq::<u8>::empty(), 0))
    } else if c < 1 {
        None
    } else {
        let h = fmt3_header(csid, ext, ts);
        let hl = h.len() as int;
        let k = min_len(c as int, needed as int);
        if s.len() >= hl + k && s.take(hl) == h {
            match unpack_cont(s.skip(hl + k), csid, ext, ts, (needed - k) as nat, c) {
                Some((p, n)) => Some((s.subrange(hl, hl + k) + p, hl + k + n)),
                None => None,
            }
        } else {
            None
        }
    }
}

/// Parses one whole message from the front of `s` on a chunk stream with
/// no history: a format-0 chunk followed by its continuations.
#[verifier::opaque]
pub open spec fn unpack_fresh(s: Seq<u8>, c: nat) -> Option<(RtmpMessageSpec, int)> {
    if s.len() < 12 || c < 1 {
        None
    } else {
        let fmt = s[0] >> 6;
        let csid = s[0] & 0x3f;
        if fmt != 0 || csid < 2 {
            None
        } else {
            let ts3 = from_be3(s[1], s[2], s[3]);
            let len = from_be3(s[4], s[5], s[6]) as nat;
            let type_id = s[7];
            let msid = from_le4(s[8], s[9], s[10], s[11]);
            let ext = ts3 == 0xFFFFFF;
            let hl: int = if ext {
                16
            } else {
                12
            };
            if s.len() >= hl {
                let ts = if ext {
                    from_be4(s[12], s[13], s[14], s[15])
                } else {
                    ts3
                };
                let k = min_len(c as int, len as int);
                if s.len() >= hl + k {
                    let first = s.subrange(hl, hl + k);
                    match unpack_cont(s.skip(hl + k), csid, ext, ts, (len - k) as nat, c) {
                        Some((p, n)) => Some(
                            (
                                RtmpMessageSpec {
                                    csid,
                                    timestamp: ts,
                                    msg_type_id: type_id,
                                    msg_stream_id: msid,
                                    payload: first + p,
                                },
                                hl + k + n,
                            ),
                        ),
                        None => None,
                    }
                } else {
                    None
                }
            } else {
                None
            }
        }
    }
}

/// The continuation parser reassembles exactly the bytes still needed.
pub proof fn lemma_unpack_cont_len(s: Seq<u8>, csid: u8, ext: bool, ts: u32, needed: nat, c: nat)
    ensures
        unpack_cont(s, csid, ext, ts, needed, c) matches Some(p) ==> p.0.len() == needed && p.1
            >= 0,
    decreases needed,
{
    reveal(unpack_cont);
    if needed > 0 && c >= 1 {
        let h = fmt3_header(csid, ext, ts);
        let hl = h.len() as int;
        let k = min_len(c as int, needed as int);
        if s.len() >= hl + k && s.take(hl) == h {
            lemma_unpack_cont_len(s.skip(hl + k), csid, ext, ts, (needed - k) as nat, c);
        }
    }
}

/// What one accepted whole-message parse pins down about the input's
/// header bytes and first body piece.
proof fn lemma_fresh_step(s: Seq<u8>, c: nat, hm: RtmpMessageSpec)
    requires
        unpack_fresh(s, c) == Some((hm, s.len() as int)),
    ensures
        s.len() >= 12,
        c >= 1,
        s[0] >> 6 == 0,
        s[0] & 0x3f == hm.csid,
        2 <= hm.csid < 64,
        ({
            let ext = from_be3(s[1], s[2], s[3]) == 0xFFFFFF;
            let hl: int = if ext {
                16
            } else {
                12
            };
            let k0 = min_len(c as int, hm.payload.len() as int);
            &&& hm.payload.len() == from_be3(s[4], s[5], s[6])
            &&& hm.msg_type_id == s[7]
            &&& hm.msg_stream_id == from_le4(s[8], s[9], s[10], s[11])
            &&& hm.timestamp == (if ext {
                from_be4(s[12], s[13], s[14], s[15])
            } else {
                from_be3(s[1], s[2], s[3])
            })
            &&& s.len() >= hl + k0
            &&& s.subrange(hl, hl + k0) == hm.payload.take(k0)
            &&& unpack_cont(
                s.skip(hl + k0),
                hm.csid,
                ext,
                hm.timestamp,
                (hm.payload.len() - k0) as nat,
                c,
            ) == Some((hm.payload.skip(k0), s.len() - hl - k0))
        }),
{
    reveal(unpack_fresh);
    let b0 = s[0];
    let csid = b0 & 0x3f;
    assert(b0 & 0x3f < 64) by (bit_vector);
    let ts3 = from_be3(s[1], s[2], s[3]);
    let len = from_be3(s[4], s[5], s[6]) as nat;
    let ext = ts3 == 0xFFFFFF;
    let hl: int = if ext {
        16
    } else {
        12
    };
    let ts = if ext {
        from_be4(s[12], s[13], s[14], s[15])
    } else {
        ts3
    };
    let k = min_len(c as int, len as int);
    let cr = unpack_cont(s.skip(hl + k), csid, ext, ts, (len - k) as nat, c);
    assert(cr is Some);
    lemma_unpack_cont_len(s.skip(hl + k), csid, ext, ts, (len - k) as nat, c);
    let cp = cr.unwrap().0;
    let cn = cr.unwrap().1;
    assert(hm.payload == s.subrange(hl, hl + k) + cp);
    assert(s.len() as int == hl + k + cn);
    assert(hm.payload.len() == len);
    assert(k == min_len(c as int, hm.payload.len() as int));
    assert(s.subrange(hl, hl + k) =~= hm.payload.take(k));
    assert(cp =~= hm.payload.skip(k));
}

/// What one accepted continuation parse pins down about the input's next
/// chunk and what remains after it.
proof fn lemma_cont_step(
    srem: Seq<u8>,
    csid: u8,
    ext: bool,
    ts: u32,
    needed: nat,
    c: nat,
    p: Seq<u8>,
    n: int,
)
    requires
        needed > 0,
        2 <= csid < 64,
        unpack_cont(srem, csid, ext, ts, needed, c) == Some((p, n)),
    ensures
        c >= 1,
        p.len() == needed,
        ({
            let h = fmt3_header(csid, ext, ts);
            let hl = h.len() as int;
            let k = min_len(c as int, needed as int);
            &&& hl == (if ext {
                5int
            } else {
                1int
            })
            &&& srem.len() >= hl + k
            &&& srem[0] == (0xC0 | csid) as u8
            &&& srem[0] >> 6 == 3 && srem[0] & 0x3f == csid
            &&& srem.subrange(hl, hl + k) == p.take(k)
            &&& unpack_cont(srem.skip(hl + k), csid, ext, ts, (needed - k) as nat, c) == Some(
                (p.skip(k), n - hl - k),
            )
        }),
{
    reveal(unpack_cont);
    let h = fmt3_header(csid, ext, ts);
    let hl = h.len() as int;
    let k = min_len(c as int, needed as int);
    assert(srem.len() >= hl + k && srem.take(hl) == h);
    assert(srem[0] == h[0]);
    assert(srem[0] == (0xC0 | csid) as u8);
    assert(2 <= csid < 64 ==> (((0xC0 | csid) as u8) >> 6 == 3 && ((0xC0 | csid) as u8) & 0x3f
        == csid)) by (bit_vector);
    let cr = unpack_cont(srem.skip(hl + k), csid, ext, ts, (needed - k) as nat, c);
    assert(cr is Some);
    lemma_unpack_cont_len(srem, csid, ext, ts, needed, c);
    lemma_unpack_cont_len(srem.skip(hl + k), csid, ext, ts, (needed - k) as nat, c);
    let cp = cr.unwrap().0;
    let cn = cr.unwrap().1;
    assert(p == srem.subrange(hl, hl + k) + cp);
    assert(n == hl + k + cn);
    assert(srem.subrange(hl, hl + k) =~= p.take(k));
    assert(cp =~= p.skip(k));
}

/// Unpacking the continuation chunks of `rest` yields `rest` back,
/// whatever bytes follow them.
pub proof fn lemma_cont_round_trip(rest: Seq<u8>, csid: u8, ext: bool, ts: u32, c: nat, extra: Seq<u8>)
    requires
        c >= 1,
    ensures
        unpack_cont(cont_chunks(rest, csid, ext, ts, c) + extra, csid, ext, ts, rest.len(), c)
            == Some((rest, cont_chunks(rest, csid, ext, ts, c).len() as int)),
    decreases rest.len(),
{
    reveal(unpack_cont);
    if rest.len() == 0 {
        assert(rest =~= Seq::<u8>::empty());
    } else {
        let k = min_len(c as int, rest.len() as int);
        let h = fmt3_header(csid, ext, ts);
        let hl = h.len() as int;
        let s = cont_chunks(rest, csid, ext, ts, c) + extra;
        assert(s =~= h + rest.take(k) + (cont_chunks(rest.skip(k), csid, ext, ts, c) + extra));
        assert(s.take(hl) =~= h);
        assert(s.subrange(hl, hl + k) =~= rest.take(k));
        assert(s.skip(hl + k) =~= cont_chunks(rest.skip(k), csid, ext, ts, c) + extra);
        lemma_cont_round_trip(rest.skip(k), csid, ext, ts, c, extra);
        assert(rest.take(k) + rest.skip(k) =~= rest);
    }
}

/// The chunk round-trip law: for any packable message and any chunk size
/// of at least one byte, unpacking the packed bytes yields the message
/// back, consuming exactly those bytes, whatever follows them.
pub proof fn lemma_chunk_round_trip(m: RtmpMessageSpec, c: nat, extra: Seq<u8>)
    requires
        wf_msg(m),
        c >= 1,
    ensures
        unpack_fresh(pack_fresh(m, c) + extra, c) == Some((m, pack_fresh(m, c).len() as int)),
{
    reveal(unpack_fresh);
    reveal(unpack_cont);
    let s = pack_fresh(m, c) + extra;
    let ext = m.timestamp >= 0xFFFFFF;
    let k = min_len(c as int, m.payload.len() as int);
    let hl: int = if ext {
        16
    } else {
        12
    };
    assert(s.len() >= 12);
    assert(s[0] == m.csid);
    assert(m.csid >> 6 == 0 && (m.csid & 0x3f) == m.csid) by {
        let csid = m.csid;
        assert(2 <= csid < 64 ==> (csid >> 6 == 0 && (csid & 0x3f) == csid)) by (bit_vector);
    }
    let lenv = m.payload.len() as u32;
    lemma_be3_roundtrip(lenv);
    if ext {
        lemma_be3_roundtrip(0xFFFFFF);
        lemma_be4_roundtrip(m.timestamp);
        assert(s[1] == be3(0xFFFFFF)[0] && s[2] == be3(0xFFFFFF)[1] && s[3] == be3(0xFFFFFF)[2]);
        assert(s[4] == be3(lenv)[0] && s[5] == be3(lenv)[1] && s[6] == be3(lenv)[2]);
        assert(s[7] == m.msg_type_id);
        assert(s[8] == le4(m.msg_stream_id)[0] && s[9] == le4(m.msg_stream_id)[1] && s[10] == le4(
            m.msg_stream_id,
        )[2] && s[11] == le4(m.msg_stream_id)[3]);
        assert(s[12] == be4(m.timestamp)[0] && s[13] == be4(m.timestamp)[1] && s[14] == be4(
            m.timestamp,
        )[2] && s[15] == be4(m.timestamp)[3]);
    } else {
        lemma_be3_roundtrip(m.timestamp);
        assert(s[1] == be3(m.timestamp)[0] && s[2] == be3(m.timestamp)[1] && s[3] == be3(
            m.timestamp,
        )[2]);
        assert(from_be3(s[1], s[2], s[3]) == m.timestamp);
        assert(from_be3(s[1], s[2], s[3]) != 0xFFFFFF);
        assert(s[4] == be3(lenv)[0] && s[5] == be3(lenv)[1] && s[6] == be3(lenv)[2]);
        assert(s[7] == m.msg_type_id);
        assert(s[8] == le4(m.msg_stream_id)[0] && s[9] == le4(m.msg_stream_id)[1] && s[10] == le4(
            m.msg_stream_id,
        )[2] && s[11] == le4(m.msg_stream_id)[3]);
    }
    lemma_le4_roundtrip(m.msg_stream_id);
    assert(s.subrange(hl, hl + k) =~= m.payload.take(k));
    assert(s.skip(hl + k) =~= cont_chunks(m.payload.skip(k), m.csid, ext, m.timestamp, c) + extra);
    lemma_cont_round_trip(m.payload.skip(k), m.csid, ext, m.timestamp, c, extra);
    assert(m.payload.take(k) + m.payload.skip(k) =~= m.payload);
    assert(unpack_fresh(s, c) matches Some(r) && r.0 =~= m);
}


/// The chunk message header fields remembered per chunk stream for header
/// compression.
#[derive(Clone, Copy, PartialEq, Eq, Structural, Debug)]
pub struct PrevHeader {
    /// Absolute timestamp of the last message.
    pub timestamp: u32,
    /// Body length of the last message.
    pub length: u32,
    /// Type id of the last message.
    pub type_id: u8,
    /// Message stream id of the last message.
    pub msg_stream_id: u32,
}

/// The format-1 header: timestamp delta, length and type; the message
/// stream id is taken from the previous message.
pub open spec fn fmt1_header(csid: u8, delta: u32, len: u32, type_id: u8) -> Seq<u8> {
    if delta >= 0xFFFFFF {
        seq![(0x40 | csid) as u8] + be3(0xFFFFFF) + be3(len) + seq![type_id] + be4(delta)
    } else {
        seq![(0x40 | csid) as u8] + be3(delta) + be3(len) + seq![type_id]
    }
}

/// The format-2 header: a timestamp delta alone; length, type and message
/// stream id are taken from the previous message.
pub open spec fn fmt2_header(csid: u8, delta: u32) -> Seq<u8> {
    if delta >= 0xFFFFFF {
        seq![(0x80 | csid) as u8] + be3(0xFFFFFF) + be4(delta)
    } else {
        seq![(0x80 | csid) as u8] + be3(delta)
    }
}

/// The chunked bytes of a message on a chunk stream that already carried
/// `prev`: format 0 when the timestamp goes backwards or the message
/// stream changes, format 1 when only length or type change, format 2 when
/// all three match.
pub open spec fn pack_next(prev: PrevHeader, m: RtmpMessageSpec, c: nat) -> Seq<u8> {
    if m.timestamp < prev.timestamp || m.msg_stream_id != prev.msg_stream_id {
        pack_fresh(m, c)
    } else {
        let delta = (m.timestamp - prev.timestamp) as u32;
        let ext = delta >= 0xFFFFFF;
        let k = min_len(c as int, m.payload.len() as int);
        let hdr = if m.payload.len() == prev.length && m.msg_type_id == prev.type_id {
            fmt2_header(m.csid, delta)
        } else {
            fmt1_header(m.csid, delta, m.payload.len() as u32, m.msg_type_id)
        };
        hdr + m.payload.take(k) + cont_chunks(m.payload.skip(k), m.csid, ext, delta, c)
    }
}

/// What the packetizer remembers after sending a message.
pub open spec fn header_of(m: RtmpMessageSpec) -> PrevHeader {
    PrevHeader {
        timestamp: m.timestamp,
        length: m.payload.len() as u32,
        type_id: m.msg_type_id,
        msg_stream_id: m.msg_stream_id,
    }
}

/// Serializes logical messages into chunked bytes, remembering one header
/// per chunk stream so later headers can be compressed.
pub struct ChunkPacketizer {
    /// The outbound chunk size; bodies are cut into pieces of at most this
    /// many bytes.
    pub out_chunk_size: u32,
    /// The last header sent per chunk stream id, indexed by csid.
    pub prevs: Vec<Option<PrevHeader>>,
}

impl ChunkPacketizer {
    /// The packetizer's invariant: a positive chunk size and one slot per
    /// possible chunk stream id.
    pub open spec fn wf(&self) -> bool {
        self.out_chunk_size >= 1 && self.prevs@.len() == 64
    }

    /// A fresh packetizer with the protocol's default chunk size of 128.
    pub fn new() -> (p: ChunkPacketizer)
        ensures
            p.wf(),
            p.out_chunk_size == 128,
            forall|i: int| 0 <= i < 64 ==> p.prevs@[i] is None,
    {
        let mut prevs: Vec<Option<PrevHeader>> = Vec::new();
        let mut i: usize = 0;
        while i < 64
            invariant
                i <= 64,
                prevs@.len() == i,
                forall|j: int| 0 <= j < i ==> prevs@[j] is None,
            decreases 64 - i,
        {
            prevs.push(None);
            i = i + 1;
        }
        ChunkPacketizer { out_chunk_size: 128, prevs }
    }

    /// Sets the outbound chunk size, as after sending `SetChunkSize`.
    pub fn set_chunk_size(&mut self, n: u32)
        requires
            old(self).wf(),
            n >= 1,
        ensures
            final(self).wf(),
            final(self).out_chunk_size == n,
            final(self).prevs@ == old(self).prevs@,
    {
        self.out_chunk_size = n;
    }

    /// Chunks one message: exactly `pack_fresh` on a chunk stream with no
    /// history, `pack_next` against the remembered header otherwise; the
    /// message's header is remembered either way.
    pub fn packetize(&mut self, m: &RtmpMessage) -> (out: Vec<u8>)
        requires
            old(self).wf(),
            wf_msg(m@),
        ensures
            final(self).wf(),
            final(self).out_chunk_size == old(self).out_chunk_size,
            out@ == (match old(self).prevs@[m@.csid as int] {
                Option::None => pack_fresh(m@, old(self).out_chunk_size as nat),
                Option::Some(p) => pack_next(p, m@, old(self).out_chunk_size as nat),
            }),
            final(self).prevs@ == old(self).prevs@.update(m@.csid as int, Some(header_of(m@))),
    {
        let csid = m.csid;
        let c = self.out_chunk_size;
        let len32 = m.payload.len() as u32;
        let prev = self.prevs[csid as usize];
        let mut w = BytesWriter::new();
        // pick the header format and the timestamp field value that
        // continuations repeat when extended
        let use_delta: bool;
        let tsv: u32;
        match prev {
            Some(p) => {
                if m.timestamp < p.timestamp || m.msg_stream_id != p.msg_stream_id {
                    use_delta = false;
                    tsv = m.timestamp;
                } else {
                    use_delta = true;
                    tsv = m.timestamp - p.timestamp;
                }
            },
            None => {
                use_delta = false;
                tsv = m.timestamp;
            },
        }
        let ext = tsv >= 0xFFFFFF;
        if use_delta {
            let p = prev.unwrap();
            if len32 == p.length && m.msg_type_id == p.type_id {
                w.write_u8(0x80 | csid);
                w.write_u24(if ext { 0xFFFFFF } else { tsv });
                if ext {
                    w.write_u32(tsv);
                }
                proof {
                    assert(w@ =~= fmt2_header(m@.csid, tsv));
                }
            } else {
                w.write_u8(0x40 | csid);
                w.write_u24(if ext { 0xFFFFFF } else { tsv });
                w.write_u24(len32);
                w.write_u8(m.msg_type_id);
                if ext {
                    w.write_u32(tsv);
                }
                proof {
                    assert(w@ =~= fmt1_header(m@.csid, tsv, len32, m@.msg_type_id));
                }
            }
        } else {
            w.write_u8(csid);
            w.write_u24(if ext { 0xFFFFFF } else { tsv });
            w.write_u24(len32);
            w.write_u8(m.msg_type_id);
            w.write_u32_le(m.msg_stream_id);
            if ext {
                w.write_u32(tsv);
            }
            proof {
                assert(w@ =~= fmt0_header(m@));
            }
        }
        let ghost hdr = w@;
        let len = m.payload.len();
        let k = if (c as usize) <= len {
            c as usize
        } else {
            len
        };
        w.write_range(&m.payload, 0, k);
        proof {
            assert(m.payload@.subrange(0, k as int) =~= m@.payload.take(k as int));
        }
        let mut done: usize = k;
        while done < len
            invariant
                k <= done <= len,
                len == m.payload@.len(),
                c >= 1,
                ext == (tsv >= 0xFFFFFF),
                w@ + cont_chunks(m@.payload.skip(done as int), m@.csid, ext, tsv, c as nat) == hdr
                    + m@.payload.take(k as int) + cont_chunks(
                    m@.payload.skip(k as int),
                    m@.csid,
                    ext,
                    tsv,
                    c as nat,
                ),
                csid == m@.csid,
            decreases len - done,
        {
            let k2 = if (c as usize) <= len - done {
                c as usize
            } else {
                len - done
            };
            let ghost before = w@;
            w.write_u8(0xC0 | csid);
            if ext {
                w.write_u32(tsv);
            }
            w.write_range(&m.payload, done, done + k2);
            proof {
                let restv = m@.payload.skip(done as int);
                assert(restv.take(k2 as int) =~= m.payload@.subrange(
                    done as int,
                    done as int + k2 as int,
                ));
                assert(restv.skip(k2 as int) =~= m@.payload.skip(done as int + k2 as int));
                assert(w@ =~= before + fmt3_header(m@.csid, ext, tsv) + restv.take(k2 as int));
                assert(cont_chunks(restv, m@.csid, ext, tsv, c as nat) == fmt3_header(
                    m@.csid,
                    ext,
                    tsv,
                ) + restv.take(k2 as int) + cont_chunks(
                    restv.skip(k2 as int),
                    m@.csid,
                    ext,
                    tsv,
                    c as nat,
                ));
                assert(w@ + cont_chunks(
                    m@.payload.skip(done as int + k2 as int),
                    m@.csid,
                    ext,
                    tsv,
                    c as nat,
                ) =~= before + cont_chunks(restv, m@.csid, ext, tsv, c as nat));
            }
            done = done + k2;
        }
        proof {
            assert(m@.payload.skip(len as int) =~= Seq::<u8>::empty());
            assert(cont_chunks(Seq::<u8>::empty(), m@.csid, ext, tsv, c as nat) =~= Seq::<
                u8,
            >::empty());
            assert(w@ + Seq::<u8>::empty() =~= w@);
        }
        self.prevs[csid as usize] = Some(
            PrevHeader {
                timestamp: m.timestamp,
                length: len32,
                type_id: m.msg_type_id,
                msg_stream_id: m.msg_stream_id,
            },
        );
        let mut wmut = w;
        wmut.extract_current_bytes()
    }
}


/// Error raised while reassembling chunks.
#[derive(Debug)]
pub struct ChunkUnpackError {
    pub value: ChunkUnpackErrorValue,
}

/// The kinds of unpacking errors.
#[derive(Debug)]
pub enum ChunkUnpackErrorValue {
    /// A basic header announced the two- or three-byte chunk stream id
    /// form, which this layer does not speak.
    UnsupportedCsid,
    /// A compressed header (format 1, 2 or 3) arrived on a chunk stream
    /// with no earlier full header to complete it from.
    MissingContext,
}

/// The per-chunk-stream reassembly state.
pub struct CsidState {
    /// Whether a full header was seen on this chunk stream.
    pub active: bool,
    /// Absolute timestamp of the message in progress or last completed.
    pub timestamp: u32,
    /// The last timestamp delta, applied again by format-3 starts.
    pub ts_delta: u32,
    /// Body length of the message in progress.
    pub length: u32,
    /// Type id of the message in progress.
    pub type_id: u8,
    /// Message stream id of the message in progress.
    pub msg_stream_id: u32,
    /// Whether this message's header carried an extended timestamp, which
    /// its continuation chunks then repeat.
    pub ext: bool,
    /// The body bytes gathered so far.
    pub partial: Vec<u8>,
}

impl CsidState {
    /// The state's invariant: the gathered bytes never pass the announced
    /// length, which fits 24 bits.
    pub open spec fn wf(&self) -> bool {
        self.partial@.len() <= self.length < 0x1000000
    }

    /// A chunk stream with no history.
    pub fn idle() -> (st: CsidState)
        ensures
            st.wf(),
            !st.active,
            st.partial@.len() == 0,
    {
        CsidState {
            active: false,
            timestamp: 0,
            ts_delta: 0,
            length: 0,
            type_id: 0,
            msg_stream_id: 0,
            ext: false,
            partial: Vec::new(),
        }
    }
}

/// Whether no chunk stream holds a partly gathered message.
#[verifier::opaque]
pub open spec fn partials_empty(states: Seq<CsidState>) -> bool {
    forall|i: int| 0 <= i < states.len() ==> (#[trigger] states[i]).partial@.len() == 0
}

/// The reassembler mid-message: the message's chunk stream has gathered
/// exactly the payload's first `done` bytes under the message's header,
/// every other chunk stream is idle, and the remaining input parses as the
/// message's remaining continuations and nothing more.
#[verifier::opaque]
spec fn mid_parse(
    states: Seq<CsidState>,
    m: RtmpMessageSpec,
    ext: bool,
    done: int,
    s: Seq<u8>,
    pos: int,
    c: nat,
) -> bool {
    &&& 0 < done < m.payload.len()
    &&& 0 <= pos <= s.len()
    &&& states.len() == 64
    &&& 2 <= m.csid < 64
    &&& states[m.csid as int].active
    &&& states[m.csid as int].timestamp == m.timestamp
    &&& states[m.csid as int].length == m.payload.len()
    &&& states[m.csid as int].type_id == m.msg_type_id
    &&& states[m.csid as int].msg_stream_id == m.msg_stream_id
    &&& states[m.csid as int].ext == ext
    &&& states[m.csid as int].partial@ == m.payload.take(done)
    &&& (forall|i: int|
        0 <= i < 64 && i != m.csid as int ==> (#[trigger] states[i]).partial@.len() == 0)
    &&& unpack_cont(s.skip(pos), m.csid, ext, m.timestamp, (m.payload.len() - done) as nat, c)
        == Some((m.payload.skip(done), s.len() - pos))
}


/// Opens the mid-message predicate: the facts one parsing step needs.
proof fn lemma_mid_open(
    states: Seq<CsidState>,
    m: RtmpMessageSpec,
    ext: bool,
    done: int,
    s: Seq<u8>,
    pos: int,
    c: nat,
)
    requires
        mid_parse(states, m, ext, done, s, pos, c),
    ensures
        0 < done < m.payload.len(),
        0 <= pos <= s.len(),
        states.len() == 64,
        2 <= m.csid < 64,
        states[m.csid as int].active,
        states[m.csid as int].timestamp == m.timestamp,
        states[m.csid as int].length == m.payload.len(),
        states[m.csid as int].type_id == m.msg_type_id,
        states[m.csid as int].msg_stream_id == m.msg_stream_id,
        states[m.csid as int].ext == ext,
        states[m.csid as int].partial@ == m.payload.take(done),
        forall|i: int| 0 <= i < 64 && i != m.csid as int ==> (#[trigger] states[i]).partial@.len()
            == 0,
        c >= 1,
        unpack_cont(s.skip(pos), m.csid, ext, m.timestamp, (m.payload.len() - done) as nat, c)
            == Some((m.payload.skip(done), s.len() - pos)),
        ({
            let h = fmt3_header(m.csid, ext, m.timestamp);
            let hl = h.len() as int;
            let k = min_len(c as int, m.payload.len() - done);
            &&& hl == (if ext {
                5int
            } else {
                1int
            })
            &&& s.len() - pos >= hl + k
            &&& s.skip(pos)[0] == (0xC0 | m.csid) as u8
            &&& s.skip(pos)[0] >> 6 == 3 && s.skip(pos)[0] & 0x3f == m.csid
            &&& s.skip(pos).subrange(hl, hl + k) == m.payload.skip(done).take(k)
            &&& unpack_cont(
                s.skip(pos).skip(hl + k),
                m.csid,
                ext,
                m.timestamp,
                (m.payload.len() - done - k) as nat,
                c,
            ) == Some((m.payload.skip(done).skip(k), s.len() - pos - hl - k))
        }),
{
    reveal(mid_parse);
    lemma_cont_step(
        s.skip(pos),
        m.csid,
        ext,
        m.timestamp,
        (m.payload.len() - done) as nat,
        c,
        m.payload.skip(done),
        s.len() - pos,
    );
}

/// Closes the mid-message predicate from its parts.
proof fn lemma_mid_close(
    states: Seq<CsidState>,
    m: RtmpMessageSpec,
    ext: bool,
    done: int,
    s: Seq<u8>,
    pos: int,
    c: nat,
)
    requires
        0 < done < m.payload.len(),
        0 <= pos <= s.len(),
        states.len() == 64,
        2 <= m.csid < 64,
        states[m.csid as int].active,
        states[m.csid as int].timestamp == m.timestamp,
        states[m.csid as int].length == m.payload.len(),
        states[m.csid as int].type_id == m.msg_type_id,
        states[m.csid as int].msg_stream_id == m.msg_stream_id,
        states[m.csid as int].ext == ext,
        states[m.csid as int].partial@ == m.payload.take(done),
        forall|i: int| 0 <= i < 64 && i != m.csid as int ==> (#[trigger] states[i]).partial@.len()
            == 0,
        unpack_cont(s.skip(pos), m.csid, ext, m.timestamp, (m.payload.len() - done) as nat, c)
            == Some((m.payload.skip(done), s.len() - pos)),
    ensures
        mid_parse(states, m, ext, done, s, pos, c),
{
    reveal(mid_parse);
}

/// Gathering the next `k` body bytes extends the front of the payload.
proof fn lemma_gather_extends(payload: Seq<u8>, done: int, k: int, piece: Seq<u8>, got: Seq<u8>)
    requires
        0 <= done,
        0 <= k,
        done + k <= payload.len(),
        piece == payload.skip(done).take(k),
        got == payload.take(done) + piece,
    ensures
        got == payload.take(done + k),
{
    assert(got =~= payload.take(done + k));
}

/// After a chunk's body, the remaining input still parses as the
/// message's remaining continuations.
proof fn lemma_advance_relation(
    m: RtmpMessageSpec,
    ext: bool,
    done: int,
    k: int,
    s: Seq<u8>,
    pos: int,
    newpos: int,
    c: nat,
)
    requires
        0 <= done,
        0 <= k,
        done + k <= m.payload.len(),
        0 <= pos,
        newpos == pos + fmt3_header(m.csid, ext, m.timestamp).len() + k,
        newpos <= s.len(),
        unpack_cont(
            s.skip(pos).skip(fmt3_header(m.csid, ext, m.timestamp).len() + k),
            m.csid,
            ext,
            m.timestamp,
            (m.payload.len() - done - k) as nat,
            c,
        ) == Some((m.payload.skip(done).skip(k), s.len() - pos - fmt3_header(
            m.csid,
            ext,
            m.timestamp,
        ).len() - k)),
    ensures
        unpack_cont(
            s.skip(newpos),
            m.csid,
            ext,
            m.timestamp,
            (m.payload.len() - (done + k)) as nat,
            c,
        ) == Some((m.payload.skip(done + k), s.len() - newpos)),
{
    let hl = fmt3_header(m.csid, ext, m.timestamp).len() as int;
    assert(s.skip(newpos) =~= s.skip(pos).skip(hl + k));
    assert(m.payload.skip(done + k) =~= m.payload.skip(done).skip(k));
}

/// A parse that needs nothing more consumed the whole input.
proof fn lemma_done_consumed(m: RtmpMessageSpec, ext: bool, s: Seq<u8>, pos: int, c: nat)
    requires
        0 <= pos <= s.len(),
        unpack_cont(s.skip(pos), m.csid, ext, m.timestamp, 0, c) == Some(
            (m.payload.skip(m.payload.len() as int), s.len() - pos),
        ),
    ensures
        pos == s.len(),
{
    reveal(unpack_cont);
}

/// All chunk streams idle means `partials_empty`, and back.
proof fn lemma_partials_empty_iff(states: Seq<CsidState>)
    ensures
        partials_empty(states) == (forall|i: int|
            0 <= i < states.len() ==> (#[trigger] states[i]).partial@.len() == 0),
{
    reveal(partials_empty);
}

/// Reassembles logical messages from chunked bytes, keeping one partial
/// message per chunk stream and honoring the peer's chunk size.
pub struct ChunkUnpacketizer {
    /// Bytes received and not yet consumed.
    pub buffer: Vec<u8>,
    /// The inbound chunk size the peer announced (default 128).
    pub in_chunk_size: u32,
    /// Reassembly state, indexed by chunk stream id.
    pub states: Vec<CsidState>,
}

impl ChunkUnpacketizer {
    /// Nothing buffered and no message partly gathered: the reassembler
    /// stands between whole messages.
    pub open spec fn quiescent(&self) -> bool {
        self.buffer@.len() == 0 && partials_empty(self.states@)
    }

    /// The unpacketizer's invariant.
    pub open spec fn wf(&self) -> bool {
        self.in_chunk_size >= 1 && self.states@.len() == 64 && forall|i: int|
            0 <= i < 64 ==> (#[trigger] self.states@[i]).wf()
    }

    /// A fresh unpacketizer with the protocol's default chunk size of 128.
    pub fn new() -> (u: ChunkUnpacketizer)
        ensures
            u.wf(),
            u.in_chunk_size == 128,
            u.buffer@.len() == 0,
            forall|i: int| 0 <= i < 64 ==> !(#[trigger] u.states@[i]).active,
    {
        let mut states: Vec<CsidState> = Vec::new();
        let mut i: usize = 0;
        while i < 64
            invariant
                i <= 64,
                states@.len() == i,
                forall|j: int| 0 <= j < i ==> (#[trigger] states@[j]).wf() && !states@[j].active,
            decreases 64 - i,
        {
            states.push(CsidState::idle());
            i = i + 1;
        }
        ChunkUnpacketizer { buffer: Vec::new(), in_chunk_size: 128, states }
    }

    /// Sets the inbound chunk size, as after the peer's `SetChunkSize`.
    pub fn update_max_chunk_size(&mut self, n: u32)
        requires
            old(self).wf(),
            n >= 1,
        ensures
            final(self).wf(),
            final(self).in_chunk_size == n,
            final(self).buffer@ == old(self).buffer@,
            final(self).states@ == old(self).states@,
    {
        self.in_chunk_size = n;
    }

    /// Feeds received bytes in and returns the messages they complete, in
    /// order. Bytes of messages still in flight stay buffered; a malformed
    /// basic header or a compressed header without context is an error.
    ///
    /// On a quiescent reassembler, an input that `unpack_fresh` parses as
    /// exactly one whole message yields exactly that message and leaves the
    /// reassembler quiescent again, so whole-message inputs chain.
    pub fn read_chunks(&mut self, data: &[u8]) -> (r: Result<Vec<RtmpMessage>, ChunkUnpackError>)
        requires
            old(self).wf(),
        ensures
            final(self).wf(),
            final(self).in_chunk_size == old(self).in_chunk_size,
            r matches Ok(msgs) ==> forall|i: int|
                0 <= i < msgs@.len() ==> wf_msg((#[trigger] msgs@[i])@),
            old(self).quiescent() ==> (unpack_fresh(
                old(self).buffer@ + data@,
                old(self).in_chunk_size as nat,
            ) matches Some(p) ==> (p.1 == old(self).buffer@.len() + data@.len() ==> (r matches Ok(
                msgs,
            ) && msgs@.len() == 1 && msgs@[0]@ == p.0 && final(self).quiescent()))),
    {
        let mut fed: Vec<u8> = Vec::new();
        core::mem::swap(&mut fed, &mut self.buffer);
        let mut i: usize = 0;
        while i < data.len()
            invariant
                i <= data@.len(),
                fed@ == old(self).buffer@ + data@.take(i as int),
            decreases data@.len() - i,
        {
            fed.push(data[i]);
            i = i + 1;
            proof {
                assert(fed@ =~= old(self).buffer@ + data@.take(i as int));
            }
        }
        proof {
            assert(fed@ =~= old(self).buffer@ + data@);
        }
        let buf = fed;
        let c = self.in_chunk_size;
        let mut out: Vec<RtmpMessage> = Vec::new();
        let ghost s = buf@;
        let ghost hyp = old(self).quiescent() && (unpack_fresh(s, c as nat) matches Some(p) && p.1
            == s.len());
        let ghost hm = match unpack_fresh(s, c as nat) {
            Some(p) => p.0,
            None => RtmpMessageSpec {
                csid: 2,
                timestamp: 0,
                msg_type_id: 0,
                msg_stream_id: 0,
                payload: Seq::<u8>::empty(),
            },
        };
        let ghost hext = s.len() >= 4 && from_be3(s[1], s[2], s[3]) == 0xFFFFFF;
        let ghost hhl: int = if hext {
            16
        } else {
            12
        };
        proof {
            if hyp {
                lemma_fresh_step(s, c as nat, hm);
                lemma_partials_empty_iff(self.states@);
            }
        }
        let mut states: Vec<CsidState> = Vec::new();
        core::mem::swap(&mut states, &mut self.states);
        let drained = drain_chunks(
            &buf,
            c,
            0,
            &mut states,
            &mut out,
            Ghost(hyp),
            Ghost(hm),
            Ghost(hext),
            Ghost(hhl),
            Ghost(0int),
            Ghost(0int),
        );
        core::mem::swap(&mut states, &mut self.states);
        let pos = match drained {
            Ok(np) => np,
            Err(e) => {
                self.buffer = buf;
                proof {
                    if hyp {
                        assert(false);
                    }
                }
                return Err(e);
            },
        };
        // keep what was not consumed
        let mut rest: Vec<u8> = Vec::new();
        let mut p: usize = pos;
        while p < buf.len()
            invariant
                pos <= p <= buf@.len(),
                rest@.len() == p - pos,
            decreases buf@.len() - p,
        {
            rest.push(buf[p]);
            p = p + 1;
        }
        self.buffer = rest;
        proof {
            if hyp {
                lemma_partials_empty_iff(self.states@);
                assert(self.buffer@.len() == 0);
            }
        }
        Ok(out)
    }
}

/// Consumes chunks from `buf` at `pos` until the input runs short,
/// appending each completed message; the per-chunk-stream reassembly state
/// lives in `states`, indexed by chunk stream id. Carries the ghost proof
/// that a whole-message input is parsed to exactly that message.
#[verifier::rlimit(100)]
fn drain_chunks(
    buf: &Vec<u8>,
    c: u32,
    pos: usize,
    states: &mut Vec<CsidState>,
    out: &mut Vec<RtmpMessage>,
    Ghost(hyp): Ghost<bool>,
    Ghost(hm): Ghost<RtmpMessageSpec>,
    Ghost(hext): Ghost<bool>,
    Ghost(hhl): Ghost<int>,
    Ghost(gphase): Ghost<int>,
    Ghost(gdone): Ghost<int>,
) -> (r: Result<usize, ChunkUnpackError>)
    requires
        pos <= buf@.len(),
        c >= 1,
        old(states)@.len() == 64,
        forall|i: int| 0 <= i < 64 ==> (#[trigger] old(states)@[i]).wf(),
        forall|j: int| 0 <= j < old(out)@.len() ==> wf_msg((#[trigger] old(out)@[j])@),
        hyp ==> unpack_fresh(buf@, c as nat) == Some((hm, buf@.len() as int)),
        hyp ==> 2 <= hm.csid < 64,
        hyp ==> hm.payload.len() == from_be3(buf@[4], buf@[5], buf@[6]),
        hext == (buf@.len() >= 4 && from_be3(buf@[1], buf@[2], buf@[3]) == 0xFFFFFF),
        hhl == (if hext {
            16int
        } else {
            12int
        }),
        hyp ==> gphase == 0 || gphase == 1 || gphase == 2,
        hyp && gphase == 0 ==> gdone == 0 && pos == 0 && old(out)@.len() == 0 && (forall|t: int|
            0 <= t < 64 ==> (#[trigger] old(states)@[t]).partial@.len() == 0),
        hyp && gphase == 1 ==> old(out)@.len() == 0 && mid_parse(
            old(states)@,
            hm,
            hext,
            gdone,
            buf@,
            pos as int,
            c as nat,
        ),
        hyp && gphase == 2 ==> pos == buf@.len() && old(out)@.len() == 1 && old(out)@[0]@ == hm
            && (forall|t: int| 0 <= t < 64 ==> (#[trigger] old(states)@[t]).partial@.len() == 0),
    ensures
        final(states)@.len() == 64,
        forall|i: int| 0 <= i < 64 ==> (#[trigger] final(states)@[i]).wf(),
        forall|j: int| 0 <= j < final(out)@.len() ==> wf_msg((#[trigger] final(out)@[j])@),
        r matches Ok(np) ==> pos <= np <= buf@.len(),
        hyp ==> (r matches Ok(np) && np == buf@.len() && final(out)@.len() == 1 && final(out)@[0]@
            == hm && (forall|t: int|
            0 <= t < 64 ==> (#[trigger] final(states)@[t]).partial@.len() == 0)),
    decreases buf@.len() - pos, 0int,
{
    let ghost s = buf@;
    let ghost gneeded = (hm.payload.len() - gdone) as nat;
    let ghost gk = min_len(c as int, gneeded as int);
    let ghost hl3 = fmt3_header(hm.csid, hext, hm.timestamp).len() as int;
    let buflen = buf.len();
    proof {
        if hyp && gphase == 0 {
            assert({
                &&& s.len() >= hhl + gk
                &&& s[0] >> 6 == 0
                &&& s[0] & 0x3f == hm.csid
                &&& hext == (from_be3(s[1], s[2], s[3]) == 0xFFFFFF)
                &&& hm.msg_type_id == s[7]
                &&& hm.timestamp == (if hext {
                    from_be4(s[12], s[13], s[14], s[15])
                } else {
                    from_be3(s[1], s[2], s[3])
                })
                &&& hm.msg_stream_id == from_le4(s[8], s[9], s[10], s[11])
            }) by {
                lemma_fresh_step(s, c as nat, hm);
            }
        }
        if hyp && gphase == 1 {
            assert({
                &&& 0 < gdone < hm.payload.len()
                &&& 0 <= pos as int <= s.len()
                &&& s.len() - pos >= hl3 + gk
                &&& hl3 == (if hext {
                    5int
                } else {
                    1int
                })
                &&& s[pos as int] == (0xC0 | hm.csid) as u8
                &&& s[pos as int] >> 6 == 3
                &&& s[pos as int] & 0x3f == hm.csid
                &&& states@[hm.csid as int].active
                &&& states@[hm.csid as int].timestamp == hm.timestamp
                &&& states@[hm.csid as int].length == hm.payload.len()
                &&& states@[hm.csid as int].type_id == hm.msg_type_id
                &&& states@[hm.csid as int].msg_stream_id == hm.msg_stream_id
                &&& states@[hm.csid as int].ext == hext
                &&& states@[hm.csid as int].partial@ == hm.payload.take(gdone)
                &&& unpack_cont(
                    s.skip(pos as int),
                    hm.csid,
                    hext,
                    hm.timestamp,
                    (hm.payload.len() - gdone) as nat,
                    c as nat,
                ) == Some((hm.payload.skip(gdone), s.len() - pos as int))
            }) by {
                lemma_mid_open(states@, hm, hext, gdone, s, pos as int, c as nat);
                assert(s.skip(pos as int)[0] == s[pos as int]);
            }
            assert(forall|t: int|
                0 <= t < 64 && t != hm.csid as int ==> (#[trigger] states@[t]).partial@.len()
                    == 0) by {
                lemma_mid_open(states@, hm, hext, gdone, s, pos as int, c as nat);
            }
        }
    }
    let remaining = buflen - pos;
    if remaining < 1 {
        proof {
            if hyp {
                assert(gphase != 0 && gphase != 1);
            }
        }
        return Ok(pos);
    }
    proof {
        if hyp && gphase == 2 {
            assert(false);
        }
    }
    let b0 = buf[pos];
    let fmt = b0 >> 6;
    let csid = b0 & 0x3f;
    if csid < 2 {
        proof {
            if hyp {
                assert(false);
            }
        }
        return Err(ChunkUnpackError { value: ChunkUnpackErrorValue::UnsupportedCsid });
    }
    proof {
        assert(b0 & 0x3f < 64) by (bit_vector);
        assert(b0 >> 6 <= 3) by (bit_vector);
    }
    let csid_idx = csid as usize;
    // take this chunk stream's state out to work on it
    let mut st = CsidState::idle();
    core::mem::swap(&mut st, &mut states[csid_idx]);
    if fmt >= 1 && !st.active {
        proof {
            if hyp {
                assert(false);
            }
        }
        states[csid_idx] = st;
        return Err(ChunkUnpackError { value: ChunkUnpackErrorValue::MissingContext });
    }
    // base header length after the basic byte
    let bh: usize = if fmt == 0 {
        11
    } else if fmt == 1 {
        7
    } else if fmt == 2 {
        3
    } else {
        0
    };
    if remaining < 1 + bh {
        proof {
            if hyp {
                assert(false);
            }
        }
        states[csid_idx] = st;
        return Ok(pos);
    }
    // read the header fields present for this format
    let mut length: u32 = st.length;
    let mut type_id: u8 = st.type_id;
    let mut msg_stream_id: u32 = st.msg_stream_id;
    let mut field3: u32 = 0;
    let mut ext: bool = st.ext;
    if fmt == 0 || fmt == 1 || fmt == 2 {
        field3 = ((buf[pos + 1] as u32) << 16u32) | ((buf[pos + 2] as u32) << 8u32) | (buf[pos
            + 3] as u32);
        ext = field3 == 0xFFFFFF;
    }
    if fmt == 0 || fmt == 1 {
        length = ((buf[pos + 4] as u32) << 16u32) | ((buf[pos + 5] as u32) << 8u32) | (buf[pos
            + 6] as u32);
        proof {
            lemma_from_be3_bound(buf@[pos + 4], buf@[pos + 5], buf@[pos + 6]);
        }
        type_id = buf[pos + 7];
    }
    if fmt == 0 {
        msg_stream_id = (buf[pos + 8] as u32) | ((buf[pos + 9] as u32) << 8u32) | ((buf[pos
            + 10] as u32) << 16u32) | ((buf[pos + 11] as u32) << 24u32);
        proof {
            if hyp && gphase == 0 {
                let m0 = s[8];
                let m1 = s[9];
                let m2 = s[10];
                let m3 = s[11];
                assert(((m0 as u32) | ((m1 as u32) << 8) | ((m2 as u32) << 16) | ((m3 as u32)
                    << 24)) == (((m3 as u32) << 24) | ((m2 as u32) << 16) | ((m1 as u32) << 8) | (
                m0 as u32))) by (bit_vector);
                assert(msg_stream_id == hm.msg_stream_id);
            }
        }
    }
    let extra: usize = if ext {
        4
    } else {
        0
    };
    proof {
        if hyp && gphase == 0 {
            assert(ext == hext);
            assert(1 + bh + extra == hhl);
        }
        if hyp && gphase == 1 {
            assert(fmt == 3 && !(fmt == 0 || fmt == 1 || fmt == 2));
            assert(csid == hm.csid);
            assert(ext == st.ext && st.ext == hext);
            assert(1 + bh + extra == hl3);
        }
    }
    if remaining < 1 + bh + extra {
        proof {
            if hyp {
                assert(false);
            }
        }
        states[csid_idx] = st;
        return Ok(pos);
    }
    let mut tsf: u32 = 0;
    if ext {
        tsf = ((buf[pos + 1 + bh] as u32) << 24u32) | ((buf[pos + 2 + bh] as u32) << 16u32) | ((
        buf[pos + 3 + bh] as u32) << 8u32) | (buf[pos + 4 + bh] as u32);
    }
    // fold the header into the state
    let continuing = fmt == 3 && st.partial.len() > 0;
    proof {
        if hyp && gphase == 1 {
            assert(continuing);
        }
    }
    if fmt == 0 {
        st.timestamp = if ext {
            tsf
        } else {
            field3
        };
        st.ts_delta = 0;
        st.length = length;
        st.type_id = type_id;
        st.msg_stream_id = msg_stream_id;
        st.ext = ext;
        st.partial = Vec::new();
    } else if fmt == 1 || fmt == 2 {
        let delta = if ext {
            tsf
        } else {
            field3
        };
        st.timestamp = st.timestamp.wrapping_add(delta);
        st.ts_delta = delta;
        if fmt == 1 {
            st.length = length;
            st.type_id = type_id;
        }
        st.ext = ext;
        st.partial = Vec::new();
    } else if !continuing {
        // a format-3 chunk opening a new message: the previous header
        // repeats, the delta applies again
        st.timestamp = st.timestamp.wrapping_add(st.ts_delta);
        st.partial = Vec::new();
    }
    st.active = true;
    proof {
        if hyp && (gphase == 0 || gphase == 1) {
            assert(st.timestamp == hm.timestamp);
            assert(st.length == hm.payload.len());
            assert(st.type_id == hm.msg_type_id);
            assert(st.msg_stream_id == hm.msg_stream_id);
            assert(st.ext == hext);
            if gphase == 0 {
                assert(st.partial@ =~= hm.payload.take(0));
            }
            assert(st.partial@ == hm.payload.take(gdone));
        }
    }
    // how much of the body this chunk carries
    let have = st.partial.len();
    let needed = st.length as usize - have;
    let k = if (c as usize) <= needed {
        c as usize
    } else {
        needed
    };
    proof {
        if hyp && (gphase == 0 || gphase == 1) {
            assert(have == gdone);
            assert(needed == gneeded);
            assert(k == gk);
        }
    }
    if remaining < 1 + bh + extra + k {
        proof {
            if hyp {
                if gphase == 0 {
                    assert(s.len() >= hhl + min_len(c as int, hm.payload.len() as int));
                } else if gphase == 1 {
                    assert(s.len() - pos >= hl3 + gk);
                }
                assert(false);
            }
        }
        // incomplete: for a continuation the gathered bytes stay; a header
        // that cannot be followed yet is retried whole
        if !continuing && fmt != 3 {
            st.partial = Vec::new();
            st.active = true;
        }
        states[csid_idx] = st;
        return Ok(pos);
    }
    let body_start = pos + 1 + bh + extra;
    proof {
        if hyp && gphase == 0 {
            assert(body_start == hhl);
        }
        if hyp && gphase == 1 {
            assert(body_start == pos + hl3);
        }
    }
    finish_chunk(
        buf,
        c,
        pos,
        body_start,
        k,
        csid,
        st,
        states,
        out,
        Ghost(hyp),
        Ghost(hm),
        Ghost(hext),
        Ghost(hhl),
        Ghost(gphase),
        Ghost(gdone),
    )
}

/// Copies one chunk's body bytes into the chunk stream's state, emits the
/// message when it is complete, and goes on with the rest of the input.
/// Carries the second half of the whole-message proof.
#[verifier::rlimit(100)]
fn finish_chunk(
    buf: &Vec<u8>,
    c: u32,
    pos: usize,
    body_start: usize,
    k: usize,
    csid: u8,
    st: CsidState,
    states: &mut Vec<CsidState>,
    out: &mut Vec<RtmpMessage>,
    Ghost(hyp): Ghost<bool>,
    Ghost(hm): Ghost<RtmpMessageSpec>,
    Ghost(hext): Ghost<bool>,
    Ghost(hhl): Ghost<int>,
    Ghost(gphase): Ghost<int>,
    Ghost(gdone): Ghost<int>,
) -> (r: Result<usize, ChunkUnpackError>)
    requires
        pos < body_start,
        body_start + k <= buf@.len(),
        c >= 1,
        2 <= csid < 64,
        old(states)@.len() == 64,
        forall|i: int| 0 <= i < 64 ==> (#[trigger] old(states)@[i]).wf(),
        forall|j: int| 0 <= j < old(out)@.len() ==> wf_msg((#[trigger] old(out)@[j])@),
        st.partial@.len() + k <= st.length < 0x1000000,
        hyp ==> unpack_fresh(buf@, c as nat) == Some((hm, buf@.len() as int)),
        hyp ==> 2 <= hm.csid < 64,
        hyp ==> hm.payload.len() == from_be3(buf@[4], buf@[5], buf@[6]),
        hext == (buf@.len() >= 4 && from_be3(buf@[1], buf@[2], buf@[3]) == 0xFFFFFF),
        hhl == (if hext {
            16int
        } else {
            12int
        }),
        hyp ==> gphase == 0 || gphase == 1,
        hyp ==> {
            &&& csid == hm.csid
            &&& st.active
            &&& st.timestamp == hm.timestamp
            &&& st.length == hm.payload.len()
            &&& st.type_id == hm.msg_type_id
            &&& st.msg_stream_id == hm.msg_stream_id
            &&& st.ext == hext
            &&& st.partial@ == hm.payload.take(gdone)
            &&& 0 <= gdone
            &&& gdone + min_len(c as int, hm.payload.len() - gdone) <= hm.payload.len()
            &&& k == min_len(c as int, hm.payload.len() - gdone)
            &&& (forall|t: int|
                0 <= t < 64 && t != hm.csid as int ==> (#[trigger] old(states)@[t]).partial@.len()
                    == 0)
            &&& old(out)@.len() == 0
        },
        hyp && gphase == 0 ==> gdone == 0 && pos == 0 && body_start == hhl,
        hyp && gphase == 1 ==> 0 < gdone < hm.payload.len() && body_start == pos + fmt3_header(
            hm.csid,
            hext,
            hm.timestamp,
        ).len() && unpack_cont(
            buf@.skip(pos as int),
            hm.csid,
            hext,
            hm.timestamp,
            (hm.payload.len() - gdone) as nat,
            c as nat,
        ) == Some((hm.payload.skip(gdone), buf@.len() - pos as int)),
    ensures
        final(states)@.len() == 64,
        forall|i: int| 0 <= i < 64 ==> (#[trigger] final(states)@[i]).wf(),
        forall|j: int| 0 <= j < final(out)@.len() ==> wf_msg((#[trigger] final(out)@[j])@),
        r matches Ok(np) ==> pos <= np <= buf@.len(),
        hyp ==> (r matches Ok(np) && np == buf@.len() && final(out)@.len() == 1 && final(out)@[0]@
            == hm && (forall|t: int|
            0 <= t < 64 ==> (#[trigger] final(states)@[t]).partial@.len() == 0)),
    decreases buf@.len() - (body_start + k), 1int,
{
    let ghost s = buf@;
    let ghost gk = min_len(c as int, hm.payload.len() - gdone);
    let ghost hl3 = fmt3_header(hm.csid, hext, hm.timestamp).len() as int;
    let mut st = st;
    let csid_idx = csid as usize;
    let buflen = buf.len();
    let have = st.partial.len();
    let ghost partial0 = st.partial@;
    let ghost st0 = st;
    let mut j: usize = 0;
    while j < k
        invariant
            j <= k,
            buflen == buf@.len(),
            body_start + k <= buflen,
            st.partial@.len() == have + j,
            st.partial@ == partial0 + buf@.subrange(body_start as int, body_start as int + j as int),
            have + k <= st.length < 0x1000000,
            have == partial0.len(),
            st.active == st0.active,
            st.timestamp == st0.timestamp,
            st.ts_delta == st0.ts_delta,
            st.length == st0.length,
            st.type_id == st0.type_id,
            st.msg_stream_id == st0.msg_stream_id,
            st.ext == st0.ext,
        decreases k - j,
    {
        st.partial.push(buf[body_start + j]);
        j = j + 1;
        proof {
            assert(st.partial@ =~= partial0 + buf@.subrange(
                body_start as int,
                body_start as int + j as int,
            ));
        }
    }
    let ghost gdone2 = if hyp { gdone + gk } else { gdone };
    proof {
        if hyp {
            // the copied piece is the payload's next slice
            assert(st.partial@ == hm.payload.take(gdone2)) by {
                let piece = buf@.subrange(body_start as int, body_start as int + gk);
                if gphase == 0 {
                    lemma_fresh_step(s, c as nat, hm);
                    assert(piece =~= hm.payload.skip(0).take(gk));
                } else {
                    lemma_cont_step(
                        s.skip(pos as int),
                        hm.csid,
                        hext,
                        hm.timestamp,
                        (hm.payload.len() - gdone) as nat,
                        c as nat,
                        hm.payload.skip(gdone),
                        s.len() - pos as int,
                    );
                    assert(piece =~= s.skip(pos as int).subrange(hl3, hl3 + gk));
                    assert(piece =~= hm.payload.skip(gdone).take(gk));
                }
                lemma_gather_extends(hm.payload, gdone, gk, piece, st.partial@);
            }
        }
    }
    let newpos = body_start + k;
    proof {
        if hyp {
            // the parse relation moves to the remaining input
            assert(unpack_cont(
                s.skip(newpos as int),
                hm.csid,
                hext,
                hm.timestamp,
                (hm.payload.len() - gdone2) as nat,
                c as nat,
            ) == Some((hm.payload.skip(gdone2), s.len() - newpos as int))) by {
                if gphase == 0 {
                    lemma_fresh_step(s, c as nat, hm);
                    assert(s.skip(newpos as int) =~= s.skip(hhl + gk));
                    assert(hm.payload.skip(gdone2) =~= hm.payload.skip(0).skip(gk));
                } else {
                    lemma_cont_step(
                        s.skip(pos as int),
                        hm.csid,
                        hext,
                        hm.timestamp,
                        (hm.payload.len() - gdone) as nat,
                        c as nat,
                        hm.payload.skip(gdone),
                        s.len() - pos as int,
                    );
                    lemma_advance_relation(
                        hm,
                        hext,
                        gdone,
                        gk,
                        s,
                        pos as int,
                        newpos as int,
                        c as nat,
                    );
                }
            }
        }
    }
    let completed = st.partial.len() == st.length as usize;
    let ghost gphase3: int = if hyp && completed {
        2int
    } else {
        1int
    };
    if completed {
        let mut payload: Vec<u8> = Vec::new();
        core::mem::swap(&mut payload, &mut st.partial);
        let msg = RtmpMessage {
            csid,
            timestamp: st.timestamp,
            msg_type_id: st.type_id,
            msg_stream_id: st.msg_stream_id,
            payload,
        };
        proof {
            assert(2 <= csid < 64);
            assert(wf_msg(msg@));
            if hyp {
                assert(gdone2 == hm.payload.len());
                assert(msg@ == hm) by {
                    assert(msg@.payload =~= hm.payload);
                    assert(msg@ =~= hm);
                }
                assert(newpos == s.len()) by {
                    lemma_done_consumed(hm, hext, s, newpos as int, c as nat);
                }
            }
        }
        out.push(msg);
    } else {
        proof {
            if hyp {
                assert(st.partial@.len() == gdone2);
                assert(gdone2 < hm.payload.len());
            }
        }
    }
    states[csid_idx] = st;
    proof {
        if hyp {
            // untouched chunk streams hold nothing, before and after
            assert(forall|t: int|
                0 <= t < 64 && t != csid_idx as int ==> (#[trigger] states@[t]).partial@.len()
                    == 0);
            if completed {
                assert(st.partial@.len() == 0);
            } else {
                assert(csid == hm.csid);
                assert(states@[hm.csid as int] == st);
                lemma_mid_close(states@, hm, hext, gdone2, s, newpos as int, c as nat);
            }
        }
    }
    drain_chunks(
        buf,
        c,
        newpos,
        states,
        out,
        Ghost(hyp),
        Ghost(hm),
        Ghost(hext),
        Ghost(hhl),
        Ghost(gphase3),
        Ghost(gdone2),
    )
}

} // verus!