//! The RTMP simple handshake, server side: C0 (one version byte), C1 and
//! S1 (1536 bytes: four of time, four of zero, 1528 of filler), C2 and S2
//! (echoes of the peer's first message).

use vstd::prelude::*;

use crate::bytesio::{be4, BytesWriter};

verus! {

/// The RTMP version byte both sides must send.
pub const RTMP_VERSION: u8 = 3;

/// C1 and S1 are 1536 bytes: 4 of time, 4 of zero, 1528 of filler.
pub const HANDSHAKE_PACKET_SIZE: usize = 1536;

/// Error raised when the peer's handshake bytes are malformed.
#[derive(Debug)]
pub struct HandshakeError {
    pub value: HandshakeErrorValue,
}

/// The kinds of handshake errors.
#[derive(Debug)]
pub enum HandshakeErrorValue {
    /// C0 carries a version this server does not speak.
    BadVersion,
}

/// The server's whole reply to C0 and C1: S0 (the version byte), S1 (time,
/// zero, filler), and S2 (an echo of C1).
pub open spec fn s0s1s2_bytes(c1: Seq<u8>, s1_time: u32, s1_filler: Seq<u8>) -> Seq<u8> {
    seq![RTMP_VERSION] + be4(s1_time) + be4(0) + s1_filler + c1
}

/// Where the server stands in the handshake.
#[derive(PartialEq, Eq, Structural, Clone, Copy, Debug)]
pub enum HandshakeState {
    /// Waiting for C0 and C1.
    WaitC0C1,
    /// S0, S1 and S2 are sent; waiting for C2.
    WaitC2,
    /// The handshake is complete; chunk data follows.
    Done,
}

/// The server side of the simple handshake: buffers inbound bytes and
/// steps through C0C1, then C2.
pub struct SimpleHandshakeServer {
    /// Where the handshake stands.
    pub state: HandshakeState,
    /// Inbound bytes not yet consumed.
    pub buffer: Vec<u8>,
    /// The 1528 filler bytes this server puts in S1.
    pub s1_filler: Vec<u8>,
    /// The time field this server puts in S1.
    pub s1_time: u32,
}

impl SimpleHandshakeServer {
    /// The server's invariant: the filler fits S1 exactly.
    pub open spec fn wf(&self) -> bool {
        self.s1_filler@.len() == 1528
    }

    /// A fresh handshake with the given S1 time and filler bytes.
    pub fn new(s1_time: u32, s1_filler: Vec<u8>) -> (h: SimpleHandshakeServer)
        requires
            s1_filler@.len() == 1528,
        ensures
            h.wf(),
            h.state is WaitC0C1,
            h.buffer@.len() == 0,
            h.s1_filler@ == s1_filler@,
            h.s1_time == s1_time,
    {
        SimpleHandshakeServer { state: HandshakeState::WaitC0C1, buffer: Vec::new(), s1_filler, s1_time }
    }

    /// Feeds received bytes in and returns what must be sent back, if
    /// anything yet. On C0 and C1: checks the version and answers with S0,
    /// S1 and S2 (S2 echoing C1). On C2: consumes it and completes.
    /// `BadVersion` when C0 is not version 3.
    pub fn extend_data(&mut self, data: &[u8]) -> (r: Result<Option<Vec<u8>>, HandshakeError>)
        requires
            old(self).wf(),
        ensures
            final(self).wf(),
            final(self).s1_filler@ == old(self).s1_filler@,
            final(self).s1_time == old(self).s1_time,
            old(self).state is Done ==> final(self).state is Done && (r matches Ok(o) && o
                is None),
            old(self).state is WaitC0C1 && old(self).buffer@.len() + data@.len() < 1537 ==> (final(self).state is WaitC0C1 && final(self).buffer@ == old(self).buffer@ + data@ && (r matches
                Ok(o) && o is None)),
            old(self).state is WaitC0C1 && old(self).buffer@.len() + data@.len() >= 1537 && (old(self).buffer@ + data@)[0] != RTMP_VERSION ==> (r matches Err(e) && e.value is BadVersion),
            old(self).state is WaitC0C1 && old(self).buffer@.len() + data@.len() >= 1537 && (old(self).buffer@ + data@)[0] == RTMP_VERSION ==> (final(self).state is WaitC2 && (r matches
                Ok(o) && o matches Some(reply) && reply@ == s0s1s2_bytes(
                (old(self).buffer@ + data@).subrange(1, 1537),
                old(self).s1_time,
                old(self).s1_filler@,
            )) && final(self).buffer@ == (old(self).buffer@ + data@).skip(1537)),
            old(self).state is WaitC2 && old(self).buffer@.len() + data@.len() < 1536 ==> (final(self).state is WaitC2 && final(self).buffer@ == old(self).buffer@ + data@ && (r matches Ok(
                o,
            ) && o is None)),
            old(self).state is WaitC2 && old(self).buffer@.len() + data@.len() >= 1536 ==> (final(self).state is Done && final(self).buffer@ == (old(self).buffer@ + data@).skip(1536) && (
            r matches Ok(o) && o is None)),
    {
        let mut i: usize = 0;
        while i < data.len()
            invariant
                i <= data@.len(),
                self.buffer@ == old(self).buffer@ + data@.take(i as int),
                self.state == old(self).state,
                self.s1_filler@ == old(self).s1_filler@,
                self.s1_time == old(self).s1_time,
            decreases data@.len() - i,
        {
            self.buffer.push(data[i]);
            i = i + 1;
            proof {
                assert(self.buffer@ =~= old(self).buffer@ + data@.take(i as int));
            }
        }
        proof {
            assert(self.buffer@ =~= old(self).buffer@ + data@);
        }
        match self.state {
            HandshakeState::Done => Ok(None),
            HandshakeState::WaitC0C1 => {
                if self.buffer.len() < 1537 {
                    return Ok(None);
                }
                if self.buffer[0] != RTMP_VERSION {
                    return Err(HandshakeError { value: HandshakeErrorValue::BadVersion });
                }
                let mut w = BytesWriter::new();
                w.write_u8(RTMP_VERSION);
                w.write_u32(self.s1_time);
                w.write_u32(0);
                w.write(self.s1_filler.as_slice());
                // S2 echoes C1
                w.write_range(&self.buffer, 1, 1537);
                proof {
                    assert(w@ =~= s0s1s2_bytes(
                        self.buffer@.subrange(1, 1537),
                        self.s1_time,
                        self.s1_filler@,
                    ));
                }
                // drop the consumed C0 and C1
                let n = self.buffer.len();
                let mut rest: Vec<u8> = Vec::new();
                let mut p: usize = 1537;
                while p < n
                    invariant
                        1537 <= p <= n,
                        n == self.buffer@.len(),
                        rest@ == self.buffer@.subrange(1537, p as int),
                        self.state == old(self).state,
                        self.s1_filler@ == old(self).s1_filler@,
                        self.s1_time == old(self).s1_time,
                        self.buffer@ == old(self).buffer@ + data@,
                    decreases n - p,
                {
                    rest.push(self.buffer[p]);
                    p = p + 1;
                    proof {
                        assert(rest@ =~= self.buffer@.subrange(1537, p as int));
                    }
                }
                proof {
                    assert(rest@ =~= self.buffer@.skip(1537));
                }
                self.buffer = rest;
                self.state = HandshakeState::WaitC2;
                let mut wmut = w;
                Ok(Some(wmut.extract_current_bytes()))
            },
            HandshakeState::WaitC2 => {
                if self.buffer.len() < 1536 {
                    return Ok(None);
                }
                let n = self.buffer.len();
                let mut rest: Vec<u8> = Vec::new();
                let mut p: usize = 1536;
                while p < n
                    invariant
                        1536 <= p <= n,
                        n == self.buffer@.len(),
                        rest@ == self.buffer@.subrange(1536, p as int),
                        self.state == old(self).state,
                        self.s1_filler@ == old(self).s1_filler@,
                        self.s1_time == old(self).s1_time,
                        self.buffer@ == old(self).buffer@ + data@,
                    decreases n - p,
                {
                    rest.push(self.buffer[p]);
                    p = p + 1;
                    proof {
                        assert(rest@ =~= self.buffer@.subrange(1536, p as int));
                    }
                }
                proof {
                    assert(rest@ =~= self.buffer@.skip(1536));
                }
                self.buffer = rest;
                self.state = HandshakeState::Done;
                Ok(None)
            },
        }
    }
}

} // verus!
