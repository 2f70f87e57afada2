//! Byte-buffer I/O: a growable big-endian writer and a cursor-based reader,
//! with specification functions for the fixed-width encodings the RTMP and
//! FLV layers use.

use vstd::prelude::*;

verus! {

/// Big-endian encoding of a `u16` as two bytes.
pub open spec fn be2(v: u16) -> Seq<u8> {
    seq![((v >> 8) & 0xff) as u8, (v & 0xff) as u8]
}

/// Big-endian encoding of the low 24 bits of a `u32` as three bytes.
pub open spec fn be3(v: u32) -> Seq<u8> {
    seq![((v >> 16) & 0xff) as u8, ((v >> 8) & 0xff) as u8, (v & 0xff) as u8]
}

/// Big-endian encoding of a `u32` as four bytes.
pub open spec fn be4(v: u32) -> Seq<u8> {
    seq![
        ((v >> 24) & 0xff) as u8,
        ((v >> 16) & 0xff) as u8,
        ((v >> 8) & 0xff) as u8,
        (v & 0xff) as u8,
    ]
}

/// Little-endian encoding of a `u32` as four bytes.
pub open spec fn le4(v: u32) -> Seq<u8> {
    seq![
        (v & 0xff) as u8,
        ((v >> 8) & 0xff) as u8,
        ((v >> 16) & 0xff) as u8,
        ((v >> 24) & 0xff) as u8,
    ]
}

/// Big-endian encoding of a `u64` as eight bytes.
pub open spec fn be8(v: u64) -> Seq<u8> {
    seq![
        ((v >> 56) & 0xff) as u8,
        ((v >> 48) & 0xff) as u8,
        ((v >> 40) & 0xff) as u8,
        ((v >> 32) & 0xff) as u8,
        ((v >> 24) & 0xff) as u8,
        ((v >> 16) & 0xff) as u8,
        ((v >> 8) & 0xff) as u8,
        (v & 0xff) as u8,
    ]
}

/// The `u16` read back from two big-endian bytes.
pub open spec fn from_be2(b0: u8, b1: u8) -> u16 {
    ((b0 as u16) << 8) | (b1 as u16)
}

/// The `u32` read back from three big-endian bytes.
pub open spec fn from_be3(b0: u8, b1: u8, b2: u8) -> u32 {
    ((b0 as u32) << 16) | ((b1 as u32) << 8) | (b2 as u32)
}

/// The `u32` read back from four big-endian bytes.
pub open spec fn from_be4(b0: u8, b1: u8, b2: u8, b3: u8) -> u32 {
    ((b0 as u32) << 24) | ((b1 as u32) << 16) | ((b2 as u32) << 8) | (b3 as u32)
}

/// The `u32` read back from four little-endian bytes.
pub open spec fn from_le4(b0: u8, b1: u8, b2: u8, b3: u8) -> u32 {
    ((b3 as u32) << 24) | ((b2 as u32) << 16) | ((b1 as u32) << 8) | (b0 as u32)
}

/// The `u64` read back from eight big-endian bytes.
pub open spec fn from_be8(
    b0: u8,
    b1: u8,
    b2: u8,
    b3: u8,
    b4: u8,
    b5: u8,
    b6: u8,
    b7: u8,
) -> u64 {
    ((b0 as u64) << 56) | ((b1 as u64) << 48) | ((b2 as u64) << 40) | ((b3 as u64) << 32) | ((
    b4 as u64) << 24) | ((b5 as u64) << 16) | ((b6 as u64) << 8) | (b7 as u64)
}

/// Reading back the two bytes of `be2(v)` yields `v`.
pub proof fn lemma_be2_roundtrip(v: u16)
    ensures
        from_be2(be2(v)[0], be2(v)[1]) == v,
{
    assert(((((v >> 8) & 0xff) as u8 as u16) << 8) | ((v & 0xff) as u8 as u16) == v)
        by (bit_vector);
}

/// Reading back the three bytes of `be3(v)` yields the low 24 bits of `v`.
pub proof fn lemma_be3_roundtrip(v: u32)
    requires
        v < 0x1000000,
    ensures
        from_be3(be3(v)[0], be3(v)[1], be3(v)[2]) == v,
{
    assert(((((((v >> 16) & 0xff) as u8 as u32) << 16) | ((((v >> 8) & 0xff) as u8 as u32) << 8) | (
    (v & 0xff) as u8 as u32)) == v)) by (bit_vector)
        requires
            v < 0x1000000,
    ;
}

/// A 24-bit read is below 2^24.
pub proof fn lemma_from_be3_bound(b0: u8, b1: u8, b2: u8)
    ensures
        from_be3(b0, b1, b2) < 0x1000000,
{
    assert((((b0 as u32) << 16) | ((b1 as u32) << 8) | (b2 as u32)) < 0x1000000) by (bit_vector);
}

/// Reading back the four bytes of `be4(v)` yields `v`.
pub proof fn lemma_be4_roundtrip(v: u32)
    ensures
        from_be4(be4(v)[0], be4(v)[1], be4(v)[2], be4(v)[3]) == v,
{
    assert((((((v >> 24) & 0xff) as u8 as u32) << 24) | ((((v >> 16) & 0xff) as u8 as u32) << 16)
        | ((((v >> 8) & 0xff) as u8 as u32) << 8) | ((v & 0xff) as u8 as u32)) == v)
        by (bit_vector);
}

/// Reading back the four bytes of `le4(v)` yields `v`.
pub proof fn lemma_le4_roundtrip(v: u32)
    ensures
        from_le4(le4(v)[0], le4(v)[1], le4(v)[2], le4(v)[3]) == v,
{
    assert((((((v >> 24) & 0xff) as u8 as u32) << 24) | ((((v >> 16) & 0xff) as u8 as u32) << 16)
        | ((((v >> 8) & 0xff) as u8 as u32) << 8) | ((v & 0xff) as u8 as u32)) == v)
        by (bit_vector);
}

/// Reading back the eight bytes of `be8(v)` yields `v`.
pub proof fn lemma_be8_roundtrip(v: u64)
    ensures
        from_be8(
            be8(v)[0],
            be8(v)[1],
            be8(v)[2],
            be8(v)[3],
            be8(v)[4],
            be8(v)[5],
            be8(v)[6],
            be8(v)[7],
        ) == v,
{
    assert((((((v >> 56) & 0xff) as u8 as u64) << 56) | ((((v >> 48) & 0xff) as u8 as u64) << 48)
        | ((((v >> 40) & 0xff) as u8 as u64) << 40) | ((((v >> 32) & 0xff) as u8 as u64) << 32) | (
        (((v >> 24) & 0xff) as u8 as u64) << 24) | ((((v >> 16) & 0xff) as u8 as u64) << 16) | ((((
        v >> 8) & 0xff) as u8 as u64) << 8) | ((v & 0xff) as u8 as u64)) == v) by (bit_vector);
}

/// Error raised by `BytesReader` when the buffer runs out.
#[derive(Debug)]
pub struct BytesReadError {
    pub value: BytesReadErrorValue,
}

/// The kinds of reader errors.
#[derive(Debug)]
pub enum BytesReadErrorValue {
    /// Fewer bytes remain than the read asked for.
    NotEnoughBytes,
}

/// A growable byte buffer written back to front; the buffer's contents are
/// its view.
pub struct BytesWriter {
    pub bytes: Vec<u8>,
}

impl View for BytesWriter {
    type V = Seq<u8>;

    open spec fn view(&self) -> Seq<u8> {
        self.bytes@
    }
}

impl BytesWriter {
    /// An empty writer.
    pub fn new() -> (w: BytesWriter)
        ensures
            w@ == Seq::<u8>::empty(),
    {
        BytesWriter { bytes: Vec::new() }
    }

    /// Appends the given bytes.
    pub fn write(&mut self, data: &[u8])
        ensures
            final(self)@ == old(self)@ + data@,
    {
        let mut i: usize = 0;
        while i < data.len()
            invariant
                i <= data@.len(),
                self@ == old(self)@ + data@.take(i as int),
            decreases data@.len() - i,
        {
            self.bytes.push(data[i]);
            i = i + 1;
            proof {
                assert(self@ =~= old(self)@ + data@.take(i as int));
            }
        }
        proof {
            assert(self@ =~= old(self)@ + data@);
        }
    }

    /// Appends `data[start .. end]`.
    pub fn write_range(&mut self, data: &Vec<u8>, start: usize, end: usize)
        requires
            start <= end <= data@.len(),
        ensures
            final(self)@ == old(self)@ + data@.subrange(start as int, end as int),
    {
        let buflen = data.len();
        proof {
            assert(self@ =~= old(self)@ + data@.subrange(start as int, start as int));
        }
        let mut i: usize = start;
        while i < end
            invariant
                start <= i <= end,
                end <= buflen,
                buflen == data@.len(),
                self@ == old(self)@ + data@.subrange(start as int, i as int),
            decreases end - i,
        {
            self.bytes.push(data[i]);
            i = i + 1;
            proof {
                assert(self@ =~= old(self)@ + data@.subrange(start as int, i as int));
            }
        }
        proof {
            assert(self@ =~= old(self)@ + data@.subrange(start as int, end as int));
        }
    }

    /// Appends one byte.
    pub fn write_u8(&mut self, v: u8)
        ensures
            final(self)@ == old(self)@ + seq![v],
    {
        self.bytes.push(v);
        proof {
            assert(self@ =~= old(self)@ + seq![v]);
        }
    }

    /// Appends a `u16` in big-endian order.
    pub fn write_u16(&mut self, v: u16)
        ensures
            final(self)@ == old(self)@ + be2(v),
    {
        self.bytes.push(((v >> 8) & 0xff) as u8);
        self.bytes.push((v & 0xff) as u8);
        proof {
            assert(self@ =~= old(self)@ + be2(v));
        }
    }

    /// Appends the low 24 bits of a `u32` in big-endian order.
    pub fn write_u24(&mut self, v: u32)
        ensures
            final(self)@ == old(self)@ + be3(v),
    {
        self.bytes.push(((v >> 16) & 0xff) as u8);
        self.bytes.push(((v >> 8) & 0xff) as u8);
        self.bytes.push((v & 0xff) as u8);
        proof {
            assert(self@ =~= old(self)@ + be3(v));
        }
    }

    /// Appends a `u32` in big-endian order.
    pub fn write_u32(&mut self, v: u32)
        ensures
            final(self)@ == old(self)@ + be4(v),
    {
        self.bytes.push(((v >> 24) & 0xff) as u8);
        self.bytes.push(((v >> 16) & 0xff) as u8);
        self.bytes.push(((v >> 8) & 0xff) as u8);
        self.bytes.push((v & 0xff) as u8);
        proof {
            assert(self@ =~= old(self)@ + be4(v));
        }
    }

    /// Appends a `u32` in little-endian order.
    pub fn write_u32_le(&mut self, v: u32)
        ensures
            final(self)@ == old(self)@ + le4(v),
    {
        self.bytes.push((v & 0xff) as u8);
        self.bytes.push(((v >> 8) & 0xff) as u8);
        self.bytes.push(((v >> 16) & 0xff) as u8);
        self.bytes.push(((v >> 24) & 0xff) as u8);
        proof {
            assert(self@ =~= old(self)@ + le4(v));
        }
    }

    /// Appends a `u64` in big-endian order.
    pub fn write_u64(&mut self, v: u64)
        ensures
            final(self)@ == old(self)@ + be8(v),
    {
        self.bytes.push(((v >> 56) & 0xff) as u8);
        self.bytes.push(((v >> 48) & 0xff) as u8);
        self.bytes.push(((v >> 40) & 0xff) as u8);
        self.bytes.push(((v >> 32) & 0xff) as u8);
        self.bytes.push(((v >> 24) & 0xff) as u8);
        self.bytes.push(((v >> 16) & 0xff) as u8);
        self.bytes.push(((v >> 8) & 0xff) as u8);
        self.bytes.push((v & 0xff) as u8);
        proof {
            assert(self@ =~= old(self)@ + be8(v));
        }
    }

    /// Takes the accumulated bytes out, leaving the writer empty.
    pub fn extract_current_bytes(&mut self) -> (r: Vec<u8>)
        ensures
            r@ == old(self)@,
            final(self)@ == Seq::<u8>::empty(),
    {
        let mut out: Vec<u8> = Vec::new();
        core::mem::swap(&mut out, &mut self.bytes);
        out
    }

    /// How many bytes the writer holds.
    pub fn len(&self) -> (n: usize)
        ensures
            n == self@.len(),
    {
        self.bytes.len()
    }
}

/// A cursor over a byte buffer. The view is the part not yet consumed.
pub struct BytesReader {
    pub buf: Vec<u8>,
    pub pos: usize,
}

impl View for BytesReader {
    type V = Seq<u8>;

    open spec fn view(&self) -> Seq<u8> {
        self.buf@.skip(self.pos as int)
    }
}

impl BytesReader {
    /// The cursor never passes the end of the buffer.
    pub open spec fn wf(&self) -> bool {
        self.pos <= self.buf@.len()
    }

    /// A reader over the whole of `buf`.
    pub fn new(buf: Vec<u8>) -> (r: BytesReader)
        ensures
            r.wf(),
            r@ == buf@,
    {
        let r = BytesReader { buf, pos: 0 };
        proof {
            assert(r@ =~= r.buf@);
        }
        r
    }

    /// How many bytes remain.
    pub fn remaining(&self) -> (n: usize)
        requires
            self.wf(),
        ensures
            n == self@.len(),
    {
        self.buf.len() - self.pos
    }

    /// Reads one byte.
    pub fn read_u8(&mut self) -> (r: Result<u8, BytesReadError>)
        requires
            old(self).wf(),
        ensures
            final(self).wf(),
            old(self)@.len() == 0 ==> (r is Err && final(self)@ == old(self)@),
            old(self)@.len() >= 1 ==> (r is Ok && r.unwrap() == old(self)@[0] && final(self)@ == old(
                self,
            )@.skip(1)),
    {
        if self.pos < self.buf.len() {
            let b = self.buf[self.pos];
            self.pos = self.pos + 1;
            proof {
                assert(self@ =~= old(self)@.skip(1));
            }
            Ok(b)
        } else {
            Err(BytesReadError { value: BytesReadErrorValue::NotEnoughBytes })
        }
    }

    /// Reads a big-endian `u16`.
    pub fn read_u16(&mut self) -> (r: Result<u16, BytesReadError>)
        requires
            old(self).wf(),
        ensures
            final(self).wf(),
            old(self)@.len() < 2 ==> (r is Err && final(self)@ == old(self)@),
            old(self)@.len() >= 2 ==> (r is Ok && r.unwrap() == from_be2(
                old(self)@[0],
                old(self)@[1],
            ) && final(self)@ == old(self)@.skip(2)),
    {
        if self.buf.len() - self.pos >= 2 {
            let b0 = self.buf[self.pos];
            let b1 = self.buf[self.pos + 1];
            self.pos = self.pos + 2;
            proof {
                assert(self@ =~= old(self)@.skip(2));
            }
            Ok(((b0 as u16) << 8u16) | (b1 as u16))
        } else {
            Err(BytesReadError { value: BytesReadErrorValue::NotEnoughBytes })
        }
    }

    /// Reads a big-endian 24-bit value into a `u32`.
    pub fn read_u24(&mut self) -> (r: Result<u32, BytesReadError>)
        requires
            old(self).wf(),
        ensures
            final(self).wf(),
            old(self)@.len() < 3 ==> (r is Err && final(self)@ == old(self)@),
            old(self)@.len() >= 3 ==> (r is Ok && r.unwrap() == from_be3(
                old(self)@[0],
                old(self)@[1],
                old(self)@[2],
            ) && final(self)@ == old(self)@.skip(3)),
    {
        if self.buf.len() - self.pos >= 3 {
            let b0 = self.buf[self.pos];
            let b1 = self.buf[self.pos + 1];
            let b2 = self.buf[self.pos + 2];
            self.pos = self.pos + 3;
            proof {
                assert(self@ =~= old(self)@.skip(3));
            }
            Ok(((b0 as u32) << 16u32) | ((b1 as u32) << 8u32) | (b2 as u32))
        } else {
            Err(BytesReadError { value: BytesReadErrorValue::NotEnoughBytes })
        }
    }

    /// Reads a big-endian `u32`.
    pub fn read_u32(&mut self) -> (r: Result<u32, BytesReadError>)
        requires
            old(self).wf(),
        ensures
            final(self).wf(),
            old(self)@.len() < 4 ==> (r is Err && final(self)@ == old(self)@),
            old(self)@.len() >= 4 ==> (r is Ok && r.unwrap() == from_be4(
                old(self)@[0],
                old(self)@[1],
                old(self)@[2],
                old(self)@[3],
            ) && final(self)@ == old(self)@.skip(4)),
    {
        if self.buf.len() - self.pos >= 4 {
            let b0 = self.buf[self.pos];
            let b1 = self.buf[self.pos + 1];
            let b2 = self.buf[self.pos + 2];
            let b3 = self.buf[self.pos + 3];
            self.pos = self.pos + 4;
            proof {
                assert(self@ =~= old(self)@.skip(4));
            }
            Ok(((b0 as u32) << 24u32) | ((b1 as u32) << 16u32) | ((b2 as u32) << 8u32) | (
            b3 as u32))
        } else {
            Err(BytesReadError { value: BytesReadErrorValue::NotEnoughBytes })
        }
    }

    /// Reads a little-endian `u32`.
    pub fn read_u32_le(&mut self) -> (r: Result<u32, BytesReadError>)
        requires
            old(self).wf(),
        ensures
            final(self).wf(),
            old(self)@.len() < 4 ==> (r is Err && final(self)@ == old(self)@),
            old(self)@.len() >= 4 ==> (r is Ok && r.unwrap() == from_le4(
                old(self)@[0],
                old(self)@[1],
                old(self)@[2],
                old(self)@[3],
            ) && final(self)@ == old(self)@.skip(4)),
    {
        if self.buf.len() - self.pos >= 4 {
            let b0 = self.buf[self.pos];
            let b1 = self.buf[self.pos + 1];
            let b2 = self.buf[self.pos + 2];
            let b3 = self.buf[self.pos + 3];
            self.pos = self.pos + 4;
            proof {
                assert(self@ =~= old(self)@.skip(4));
            }
            Ok(((b3 as u32) << 24u32) | ((b2 as u32) << 16u32) | ((b1 as u32) << 8u32) | (
            b0 as u32))
        } else {
            Err(BytesReadError { value: BytesReadErrorValue::NotEnoughBytes })
        }
    }

    /// Reads a big-endian `u64`.
    pub fn read_u64(&mut self) -> (r: Result<u64, BytesReadError>)
        requires
            old(self).wf(),
        ensures
            final(self).wf(),
            old(self)@.len() < 8 ==> (r is Err && final(self)@ == old(self)@),
            old(self)@.len() >= 8 ==> (r is Ok && r.unwrap() == from_be8(
                old(self)@[0],
                old(self)@[1],
                old(self)@[2],
                old(self)@[3],
                old(self)@[4],
                old(self)@[5],
                old(self)@[6],
                old(self)@[7],
            ) && final(self)@ == old(self)@.skip(8)),
    {
        if self.buf.len() - self.pos >= 8 {
            let b0 = self.buf[self.pos];
            let b1 = self.buf[self.pos + 1];
            let b2 = self.buf[self.pos + 2];
            let b3 = self.buf[self.pos + 3];
            let b4 = self.buf[self.pos + 4];
            let b5 = self.buf[self.pos + 5];
            let b6 = self.buf[self.pos + 6];
            let b7 = self.buf[self.pos + 7];
            self.pos = self.pos + 8;
            proof {
                assert(self@ =~= old(self)@.skip(8));
            }
            Ok(((b0 as u64) << 56u64) | ((b1 as u64) << 48u64) | ((b2 as u64) << 40u64) | ((
            b3 as u64) << 32u64) | ((b4 as u64) << 24u64) | ((b5 as u64) << 16u64) | ((b6 as u64)
                << 8u64) | (b7 as u64))
        } else {
            Err(BytesReadError { value: BytesReadErrorValue::NotEnoughBytes })
        }
    }

    /// Reads exactly `n` bytes.
    pub fn read_bytes(&mut self, n: usize) -> (r: Result<Vec<u8>, BytesReadError>)
        requires
            old(self).wf(),
        ensures
            final(self).wf(),
            old(self)@.len() < n ==> (r is Err && final(self)@ == old(self)@),
            old(self)@.len() >= n ==> (r is Ok && r.unwrap()@ == old(self)@.take(n as int)
                && final(self)@ == old(self)@.skip(n as int)),
    {
        if self.buf.len() - self.pos >= n {
            let base = self.pos;
            let buflen = self.buf.len();
            let mut out: Vec<u8> = Vec::new();
            let mut i: usize = 0;
            while i < n
                invariant
                    i <= n,
                    self.wf(),
                    base == self.pos,
                    buflen == self.buf@.len(),
                    n <= buflen - base,
                    out@ == self@.take(i as int),
                decreases n - i,
            {
                out.push(self.buf[base + i]);
                i = i + 1;
                proof {
                    assert(out@ =~= self@.take(i as int));
                }
            }
            self.pos = self.pos + n;
            proof {
                assert(self@ =~= old(self)@.skip(n as int));
            }
            Ok(out)
        } else {
            Err(BytesReadError { value: BytesReadErrorValue::NotEnoughBytes })
        }
    }
}


/// An equal copy of a byte vector.
pub fn copy_bytes(data: &Vec<u8>) -> (r: Vec<u8>)
    ensures
        r@ == data@,
{
    let mut out: Vec<u8> = Vec::new();
    let n = data.len();
    let mut i: usize = 0;
    while i < n
        invariant
            i <= n,
            n == data@.len(),
            out@ == data@.take(i as int),
        decreases n - i,
    {
        out.push(data[i]);
        i = i + 1;
        proof {
            assert(out@ =~= data@.take(i as int));
        }
    }
    proof {
        assert(out@ =~= data@);
    }
    out
}

/// Whether a byte vector and a slice hold the same bytes.
pub fn bytes_eq(a: &Vec<u8>, b: &[u8]) -> (r: bool)
    ensures
        r == (a@ == b@),
{
    if a.len() != b.len() {
        proof {
            assert(a@.len() != b@.len());
        }
        return false;
    }
    let n = a.len();
    let mut i: usize = 0;
    while i < n
        invariant
            i <= n,
            n == a@.len() == b@.len(),
            forall|t: int| 0 <= t < i ==> a@[t] == b@[t],
        decreases n - i,
    {
        if a[i] != b[i] {
            return false;
        }
        i = i + 1;
    }
    proof {
        assert(a@ =~= b@);
    }
    true
}

} // verus!
