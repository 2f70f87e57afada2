//! AMF0 codec: the tagged value set RTMP commands are written in, its
//! byte-level encoding, a decoder, and the round-trip law relating them.
//!
//! Numbers are carried as the raw eight bytes of the wire encoding (an
//! IEEE-754 double), so the codec itself stays on plain integers.

use vstd::prelude::*;

use crate::bytesio::{
    be2, be4, be8, from_be2, from_be4, from_be8, lemma_be2_roundtrip, lemma_be4_roundtrip,
    lemma_be8_roundtrip, BytesReader, BytesWriter,
};

verus! {

/// Marker byte of a number value.
pub const MARKER_NUMBER: u8 = 0x00;

/// Marker byte of a boolean value.
pub const MARKER_BOOLEAN: u8 = 0x01;

/// Marker byte of a short string value.
pub const MARKER_STRING: u8 = 0x02;

/// Marker byte of an object value.
pub const MARKER_OBJECT: u8 = 0x03;

/// Marker byte of a null value.
pub const MARKER_NULL: u8 = 0x05;

/// Marker byte of an ECMA array value.
pub const MARKER_ECMA_ARRAY: u8 = 0x08;

/// Marker byte closing an object or ECMA array (after an empty key).
pub const MARKER_OBJECT_END: u8 = 0x09;

/// Marker byte of a strict array value.
pub const MARKER_STRICT_ARRAY: u8 = 0x0a;

/// An AMF0 value as held by executable code. String payloads are byte
/// strings (UTF-8 on the wire); a number is the raw bits of the wire's
/// eight-byte float.
#[derive(PartialEq, Eq, Debug)]
pub enum Amf0Value {
    /// An eight-byte number, kept as its raw big-endian bits.
    Number(u64),
    /// A one-byte boolean.
    Boolean(bool),
    /// A short string: two length bytes then the bytes themselves.
    Utf8String(Vec<u8>),
    /// Key/value pairs closed by an empty key and the end marker.
    Object(Vec<Amf0Property>),
    /// The null value.
    Null,
    /// Like an object, with a leading (advisory) element count.
    EcmaArray(Vec<Amf0Property>),
    /// A counted sequence of values.
    StrictArray(Vec<Amf0Value>),
}

/// One key/value pair of an object or ECMA array.
#[derive(PartialEq, Eq, Debug)]
pub struct Amf0Property {
    /// The key bytes; never empty, since an empty key closes the object.
    pub key: Vec<u8>,
    /// The value.
    pub value: Amf0Value,
}

/// The mathematical shape of an AMF0 value, used by all contracts.
#[verifier::ext_equal]
pub enum Amf0SpecValue {
    /// An eight-byte number, as its raw bits.
    Number(u64),
    /// A boolean.
    Boolean(bool),
    /// A short string as its byte sequence.
    Utf8String(Seq<u8>),
    /// Key/value pairs in order.
    Object(Seq<(Seq<u8>, Amf0SpecValue)>),
    /// The null value.
    Null,
    /// Key/value pairs in order, wire form carrying a count.
    EcmaArray(Seq<(Seq<u8>, Amf0SpecValue)>),
    /// Values in order.
    StrictArray(Seq<Amf0SpecValue>),
}

/// The mathematical value of an executable AMF0 value.
pub open spec fn value_view(v: Amf0Value) -> Amf0SpecValue
    decreases v,
{
    match v {
        Amf0Value::Number(b) => Amf0SpecValue::Number(b),
        Amf0Value::Boolean(f) => Amf0SpecValue::Boolean(f),
        Amf0Value::Utf8String(s) => Amf0SpecValue::Utf8String(s@),
        Amf0Value::Object(props) => Amf0SpecValue::Object(props_view(props@)),
        Amf0Value::Null => Amf0SpecValue::Null,
        Amf0Value::EcmaArray(props) => Amf0SpecValue::EcmaArray(props_view(props@)),
        Amf0Value::StrictArray(vals) => Amf0SpecValue::StrictArray(list_view(vals@)),
    }
}

/// The mathematical value of a property list.
pub open spec fn props_view(ps: Seq<Amf0Property>) -> Seq<(Seq<u8>, Amf0SpecValue)>
    decreases ps,
{
    if ps.len() == 0 {
        Seq::empty()
    } else {
        seq![(ps[0].key@, value_view(ps[0].value))] + props_view(ps.subrange(1, ps.len() as int))
    }
}

/// The mathematical value of a value list.
pub open spec fn list_view(vs: Seq<Amf0Value>) -> Seq<Amf0SpecValue>
    decreases vs,
{
    if vs.len() == 0 {
        Seq::empty()
    } else {
        seq![value_view(vs[0])] + list_view(vs.subrange(1, vs.len() as int))
    }
}

impl View for Amf0Value {
    type V = Amf0SpecValue;

    open spec fn view(&self) -> Amf0SpecValue {
        value_view(*self)
    }
}

/// The supported value set: string and key lengths fit two bytes, keys are
/// never empty, and element counts fit four bytes.
pub open spec fn wf_value(v: Amf0SpecValue) -> bool
    decreases v, 1int,
{
    match v {
        Amf0SpecValue::Number(_) => true,
        Amf0SpecValue::Boolean(_) => true,
        Amf0SpecValue::Utf8String(s) => s.len() < 0x10000,
        Amf0SpecValue::Object(ps) => wf_props(ps),
        Amf0SpecValue::Null => true,
        Amf0SpecValue::EcmaArray(ps) => ps.len() < 0x100000000 && wf_props(ps),
        Amf0SpecValue::StrictArray(vs) => vs.len() < 0x100000000 && wf_list(vs),
    }
}

/// Well-formedness of a property list.
pub open spec fn wf_props(ps: Seq<(Seq<u8>, Amf0SpecValue)>) -> bool
    decreases ps, 0int,
{
    if ps.len() == 0 {
        true
    } else {
        0 < ps[0].0.len() < 0x10000 && wf_value(ps[0].1) && wf_props(
            ps.subrange(1, ps.len() as int),
        )
    }
}

/// Well-formedness of a value list.
pub open spec fn wf_list(vs: Seq<Amf0SpecValue>) -> bool
    decreases vs, 0int,
{
    if vs.len() == 0 {
        true
    } else {
        wf_value(vs[0]) && wf_list(vs.subrange(1, vs.len() as int))
    }
}

/// The encoding of one AMF0 value.
pub open spec fn enc_value(v: Amf0SpecValue) -> Seq<u8>
    decreases v, 1int,
{
    match v {
        Amf0SpecValue::Number(b) => seq![MARKER_NUMBER] + be8(b),
        Amf0SpecValue::Boolean(f) => seq![MARKER_BOOLEAN, (if f { 1u8 } else { 0u8 })],
        Amf0SpecValue::Utf8String(s) => seq![MARKER_STRING] + be2(s.len() as u16) + s,
        Amf0SpecValue::Object(ps) => seq![MARKER_OBJECT] + enc_props(ps) + seq![
            0u8,
            0u8,
            MARKER_OBJECT_END,
        ],
        Amf0SpecValue::Null => seq![MARKER_NULL],
        Amf0SpecValue::EcmaArray(ps) => seq![MARKER_ECMA_ARRAY] + be4(ps.len() as u32) + enc_props(
            ps,
        ) + seq![0u8, 0u8, MARKER_OBJECT_END],
        Amf0SpecValue::StrictArray(vs) => seq![MARKER_STRICT_ARRAY] + be4(vs.len() as u32)
            + enc_list(vs),
    }
}

/// The encoding of a property list, without the closing marker.
pub open spec fn enc_props(ps: Seq<(Seq<u8>, Amf0SpecValue)>) -> Seq<u8>
    decreases ps, 0int,
{
    if ps.len() == 0 {
        Seq::empty()
    } else {
        be2(ps[0].0.len() as u16) + ps[0].0 + enc_value(ps[0].1) + enc_props(
            ps.subrange(1, ps.len() as int),
        )
    }
}

/// The encoding of a value list.
pub open spec fn enc_list(vs: Seq<Amf0SpecValue>) -> Seq<u8>
    decreases vs, 0int,
{
    if vs.len() == 0 {
        Seq::empty()
    } else {
        enc_value(vs[0]) + enc_list(vs.subrange(1, vs.len() as int))
    }
}

/// Decodes one value from the front of `s`: the value and how many bytes
/// it took, or nothing when `s` does not start with a supported value.
pub open spec fn dec_value(s: Seq<u8>) -> Option<(Amf0SpecValue, int)>
    decreases s.len(), 0int,
{
    if s.len() < 1 {
        None
    } else if s[0] == MARKER_NUMBER {
        if s.len() >= 9 {
            Some(
                (
                    Amf0SpecValue::Number(
                        from_be8(s[1], s[2], s[3], s[4], s[5], s[6], s[7], s[8]),
                    ),
                    9,
                ),
            )
        } else {
            None
        }
    } else if s[0] == MARKER_BOOLEAN {
        if s.len() >= 2 {
            Some((Amf0SpecValue::Boolean(s[1] != 0), 2))
        } else {
            None
        }
    } else if s[0] == MARKER_STRING {
        if s.len() >= 3 {
            let klen = from_be2(s[1], s[2]) as int;
            if s.len() >= 3 + klen {
                Some((Amf0SpecValue::Utf8String(s.subrange(3, 3 + klen)), 3 + klen))
            } else {
                None
            }
        } else {
            None
        }
    } else if s[0] == MARKER_OBJECT {
        match dec_props(s.skip(1)) {
            Some((ps, n)) => Some((Amf0SpecValue::Object(ps), 1 + n)),
            None => None,
        }
    } else if s[0] == MARKER_NULL {
        Some((Amf0SpecValue::Null, 1))
    } else if s[0] == MARKER_ECMA_ARRAY {
        if s.len() >= 5 {
            match dec_props(s.skip(5)) {
                Some((ps, n)) => Some((Amf0SpecValue::EcmaArray(ps), 5 + n)),
                None => None,
            }
        } else {
            None
        }
    } else if s[0] == MARKER_STRICT_ARRAY {
        if s.len() >= 5 {
            let count = from_be4(s[1], s[2], s[3], s[4]) as nat;
            match dec_list(s.skip(5), count) {
                Some((vs, n)) => Some((Amf0SpecValue::StrictArray(vs), 5 + n)),
                None => None,
            }
        } else {
            None
        }
    } else {
        None
    }
}

/// Decodes properties up to and including the closing empty key and end
/// marker; the count includes those three closing bytes.
pub open spec fn dec_props(s: Seq<u8>) -> Option<(Seq<(Seq<u8>, Amf0SpecValue)>, int)>
    decreases s.len(), 1int,
{
    if s.len() >= 3 && s[0] == 0 && s[1] == 0 && s[2] == MARKER_OBJECT_END {
        Some((Seq::empty(), 3))
    } else if s.len() >= 2 {
        let klen = from_be2(s[0], s[1]) as int;
        if 1 <= klen && s.len() >= 2 + klen {
            let key = s.subrange(2, 2 + klen);
            match dec_value(s.skip(2 + klen)) {
                Some((v, n)) => {
                    if 0 <= n <= s.len() - 2 - klen {
                        match dec_props(s.skip(2 + klen + n)) {
                            Some((ps, m)) => Some((seq![(key, v)] + ps, 2 + klen + n + m)),
                            None => None,
                        }
                    } else {
                        None
                    }
                },
                None => None,
            }
        } else {
            None
        }
    } else {
        None
    }
}

/// Decodes exactly `count` values from the front of `s`.
pub open spec fn dec_list(s: Seq<u8>, count: nat) -> Option<(Seq<Amf0SpecValue>, int)>
    decreases s.len(), 1 + count,
{
    if count == 0 {
        Some((Seq::empty(), 0))
    } else {
        match dec_value(s) {
            Some((v, n)) => {
                if 1 <= n <= s.len() {
                    match dec_list(s.skip(n), (count - 1) as nat) {
                        Some((vs, m)) => Some((seq![v] + vs, n + m)),
                        None => None,
                    }
                } else {
                    None
                }
            },
            None => None,
        }
    }
}

/// Every encoded value is at least one byte long.
pub proof fn lemma_enc_value_len(v: Amf0SpecValue)
    ensures
        enc_value(v).len() >= 1,
{
    match v {
        Amf0SpecValue::Number(_) => {},
        Amf0SpecValue::Boolean(_) => {},
        Amf0SpecValue::Utf8String(_) => {},
        Amf0SpecValue::Object(_) => {},
        Amf0SpecValue::Null => {},
        Amf0SpecValue::EcmaArray(_) => {},
        Amf0SpecValue::StrictArray(_) => {},
    }
}

/// Decoding an encoded value, whatever follows it, yields the value back
/// and consumes exactly its encoding.
pub proof fn lemma_dec_enc_value(v: Amf0SpecValue, rest: Seq<u8>)
    requires
        wf_value(v),
    ensures
        dec_value(enc_value(v) + rest) == Some((v, enc_value(v).len() as int)),
    decreases v, 1int,
{
    let s = enc_value(v) + rest;
    match v {
        Amf0SpecValue::Number(b) => {
            assert(s.len() >= 9);
            assert(s[0] == MARKER_NUMBER);
            lemma_be8_roundtrip(b);
            assert(s[1] == be8(b)[0] && s[2] == be8(b)[1] && s[3] == be8(b)[2] && s[4] == be8(b)[3]
                && s[5] == be8(b)[4] && s[6] == be8(b)[5] && s[7] == be8(b)[6] && s[8] == be8(
                b,
            )[7]);
        },
        Amf0SpecValue::Boolean(f) => {
            assert(s[0] == MARKER_BOOLEAN);
            assert(s[1] == (if f { 1u8 } else { 0u8 }));
        },
        Amf0SpecValue::Utf8String(str_bytes) => {
            assert(s[0] == MARKER_STRING);
            let l = str_bytes.len() as u16;
            lemma_be2_roundtrip(l);
            assert(s[1] == be2(l)[0] && s[2] == be2(l)[1]);
            assert(from_be2(s[1], s[2]) as int == str_bytes.len());
            assert(s.subrange(3, 3 + str_bytes.len() as int) =~= str_bytes);
        },
        Amf0SpecValue::Object(ps) => {
            assert(s[0] == MARKER_OBJECT);
            assert(s.skip(1) =~= enc_props(ps) + seq![0u8, 0u8, MARKER_OBJECT_END] + rest);
            lemma_dec_enc_props(ps, rest);
        },
        Amf0SpecValue::Null => {
            assert(s[0] == MARKER_NULL);
        },
        Amf0SpecValue::EcmaArray(ps) => {
            assert(s[0] == MARKER_ECMA_ARRAY);
            assert(s.len() >= 5);
            assert(s.skip(5) =~= enc_props(ps) + seq![0u8, 0u8, MARKER_OBJECT_END] + rest);
            lemma_dec_enc_props(ps, rest);
        },
        Amf0SpecValue::StrictArray(vs) => {
            assert(s[0] == MARKER_STRICT_ARRAY);
            let c = vs.len() as u32;
            lemma_be4_roundtrip(c);
            assert(s[1] == be4(c)[0] && s[2] == be4(c)[1] && s[3] == be4(c)[2] && s[4] == be4(
                c,
            )[3]);
            assert(s.skip(5) =~= enc_list(vs) + rest);
            lemma_dec_enc_list(vs, rest);
        },
    }
}

/// Decoding encoded properties followed by the closing three bytes yields
/// the properties back.
pub proof fn lemma_dec_enc_props(ps: Seq<(Seq<u8>, Amf0SpecValue)>, rest: Seq<u8>)
    requires
        wf_props(ps),
    ensures
        dec_props(enc_props(ps) + seq![0u8, 0u8, MARKER_OBJECT_END] + rest) == Some(
            (ps, enc_props(ps).len() + 3int),
        ),
    decreases ps, 0int,
{
    let s = enc_props(ps) + seq![0u8, 0u8, MARKER_OBJECT_END] + rest;
    if ps.len() == 0 {
        assert(s[0] == 0 && s[1] == 0 && s[2] == MARKER_OBJECT_END);
        assert(ps =~= Seq::<(Seq<u8>, Amf0SpecValue)>::empty());
    } else {
        let key = ps[0].0;
        let v = ps[0].1;
        let tail = ps.subrange(1, ps.len() as int);
        let k = key.len() as u16;
        lemma_be2_roundtrip(k);
        assert(s[0] == be2(k)[0] && s[1] == be2(k)[1]);
        // a real key is never the closing empty key
        assert(!(be2(k)[0] == 0 && be2(k)[1] == 0)) by {
            assert(k >= 1 ==> !((((k >> 8) & 0xff) as u8) == 0 && ((k & 0xff) as u8) == 0))
                by (bit_vector);
        }
        let klen = from_be2(s[0], s[1]) as int;
        assert(klen == key.len());
        assert(s.len() >= 2 + klen);
        assert(s.subrange(2, 2 + klen) =~= key);
        let vrest = enc_props(tail) + seq![0u8, 0u8, MARKER_OBJECT_END] + rest;
        assert(s.skip(2 + klen) =~= enc_value(v) + vrest);
        lemma_dec_enc_value(v, vrest);
        let n = enc_value(v).len() as int;
        lemma_enc_value_len(v);
        assert(0 <= n <= s.len() - 2 - klen);
        assert(s.skip(2 + klen + n) =~= enc_props(tail) + seq![0u8, 0u8, MARKER_OBJECT_END]
            + rest);
        lemma_dec_enc_props(tail, rest);
        assert(seq![(key, v)] + tail =~= ps);
        assert(enc_props(ps).len() == 2 + klen + n + enc_props(tail).len());
    }
}

/// Decoding an encoded value list with its own count yields the list back.
pub proof fn lemma_dec_enc_list(vs: Seq<Amf0SpecValue>, rest: Seq<u8>)
    requires
        wf_list(vs),
    ensures
        dec_list(enc_list(vs) + rest, vs.len()) == Some((vs, enc_list(vs).len() as int)),
    decreases vs, 0int,
{
    let s = enc_list(vs) + rest;
    if vs.len() == 0 {
        assert(vs =~= Seq::<Amf0SpecValue>::empty());
    } else {
        let v = vs[0];
        let tail = vs.subrange(1, vs.len() as int);
        assert(s =~= enc_value(v) + (enc_list(tail) + rest));
        lemma_dec_enc_value(v, enc_list(tail) + rest);
        let n = enc_value(v).len() as int;
        lemma_enc_value_len(v);
        assert(1 <= n <= s.len());
        assert(s.skip(n) =~= enc_list(tail) + rest);
        lemma_dec_enc_list(tail, rest);
        assert(seq![v] + tail =~= vs);
    }
}

/// The round-trip law: on the supported value set, decode of encode is the
/// identity, consuming exactly the encoding.
pub proof fn lemma_amf0_round_trip(v: Amf0SpecValue)
    requires
        wf_value(v),
    ensures
        dec_value(enc_value(v)) == Some((v, enc_value(v).len() as int)),
{
    lemma_dec_enc_value(v, Seq::<u8>::empty());
    assert(enc_value(v) + Seq::<u8>::empty() =~= enc_value(v));
}


/// Error raised when a value to encode lies outside the supported set.
#[derive(Debug)]
pub struct Amf0WriteError {
    pub value: Amf0WriteErrorValue,
}

/// The kinds of write errors.
#[derive(Debug)]
pub enum Amf0WriteErrorValue {
    /// A string or key is too long for two length bytes, a key is empty,
    /// or an array is too long for four count bytes.
    NotSupported,
}

/// Error raised when bytes do not start with a supported AMF0 value.
#[derive(Debug)]
pub struct Amf0ReadError {
    pub value: Amf0ReadErrorValue,
}

/// The kinds of read errors.
#[derive(Debug)]
pub enum Amf0ReadErrorValue {
    /// The buffer ends inside a value.
    NotEnoughBytes,
    /// The marker byte is not one of the supported values.
    UnknownMarker,
    /// A key length of zero stands where a key must be.
    InvalidKey,
    /// The value read is not of the kind the caller demands.
    WrongType,
}

/// A property list's view has the list's length.
pub proof fn lemma_props_view_len(ps: Seq<Amf0Property>)
    ensures
        props_view(ps).len() == ps.len(),
    decreases ps,
{
    if ps.len() > 0 {
        lemma_props_view_len(ps.subrange(1, ps.len() as int));
    }
}

/// A value list's view has the list's length.
pub proof fn lemma_list_view_len(vs: Seq<Amf0Value>)
    ensures
        list_view(vs).len() == vs.len(),
    decreases vs,
{
    if vs.len() > 0 {
        lemma_list_view_len(vs.subrange(1, vs.len() as int));
    }
}

/// Unfolds the view, well-formedness and encoding of the properties from
/// index `i` on into the head property and the rest.
pub proof fn lemma_props_suffix_unfold(ps: Seq<Amf0Property>, i: int)
    requires
        0 <= i < ps.len(),
    ensures
        props_view(ps.skip(i)) == seq![(ps[i].key@, value_view(ps[i].value))] + props_view(
            ps.skip(i + 1),
        ),
        wf_props(props_view(ps.skip(i))) == (0 < ps[i].key@.len() < 0x10000 && wf_value(
            value_view(ps[i].value),
        ) && wf_props(props_view(ps.skip(i + 1)))),
        enc_props(props_view(ps.skip(i))) == be2(ps[i].key@.len() as u16) + ps[i].key@ + enc_value(
            value_view(ps[i].value),
        ) + enc_props(props_view(ps.skip(i + 1))),
{
    let s = ps.skip(i);
    assert(s[0] == ps[i]);
    assert(s.subrange(1, s.len() as int) =~= ps.skip(i + 1));
    let head = (ps[i].key@, value_view(ps[i].value));
    let q = props_view(s);
    assert(q == seq![head] + props_view(ps.skip(i + 1)));
    lemma_props_view_len(ps.skip(i + 1));
    assert(q.len() > 0);
    assert(q[0] == head);
    assert(q.subrange(1, q.len() as int) =~= props_view(ps.skip(i + 1)));
}

/// Unfolds the view, well-formedness and encoding of the values from index
/// `i` on into the head value and the rest.
pub proof fn lemma_list_suffix_unfold(vs: Seq<Amf0Value>, i: int)
    requires
        0 <= i < vs.len(),
    ensures
        list_view(vs.skip(i)) == seq![value_view(vs[i])] + list_view(vs.skip(i + 1)),
        wf_list(list_view(vs.skip(i))) == (wf_value(value_view(vs[i])) && wf_list(
            list_view(vs.skip(i + 1)),
        )),
        enc_list(list_view(vs.skip(i))) == enc_value(value_view(vs[i])) + enc_list(
            list_view(vs.skip(i + 1)),
        ),
{
    let s = vs.skip(i);
    assert(s[0] == vs[i]);
    assert(s.subrange(1, s.len() as int) =~= vs.skip(i + 1));
    let q = list_view(s);
    assert(q == seq![value_view(vs[i])] + list_view(vs.skip(i + 1)));
    lemma_list_view_len(vs.skip(i + 1));
    assert(q.len() > 0);
    assert(q[0] == value_view(vs[i]));
    assert(q.subrange(1, q.len() as int) =~= list_view(vs.skip(i + 1)));
}

/// Checks that a value lies in the supported set.
pub fn check_wf_value(v: &Amf0Value) -> (r: bool)
    ensures
        r == wf_value(v@),
    decreases *v, 1int,
{
    match v {
        Amf0Value::Number(_) => true,
        Amf0Value::Boolean(_) => true,
        Amf0Value::Utf8String(s) => s.len() < 0x10000,
        Amf0Value::Object(props) => {
            proof {
                assert(props@.skip(0) =~= props@);
            }
            check_wf_props(props, 0)
        },
        Amf0Value::Null => true,
        Amf0Value::EcmaArray(props) => {
            proof {
                assert(props@.skip(0) =~= props@);
                lemma_props_view_len(props@);
            }
            if (props.len() as u64) < 0x100000000u64 {
                check_wf_props(props, 0)
            } else {
                false
            }
        },
        Amf0Value::StrictArray(vals) => {
            proof {
                assert(vals@.skip(0) =~= vals@);
                lemma_list_view_len(vals@);
            }
            if (vals.len() as u64) < 0x100000000u64 {
                check_wf_list(vals, 0)
            } else {
                false
            }
        },
    }
}

/// Checks well-formedness of the properties from index `i` on.
fn check_wf_props(ps: &Vec<Amf0Property>, i: usize) -> (r: bool)
    requires
        i <= ps@.len(),
    ensures
        r == wf_props(props_view(ps@.skip(i as int))),
    decreases *ps, ps@.len() - i, 1int,
{
    proof {
        if i < ps@.len() {
            lemma_props_suffix_unfold(ps@, i as int);
        } else {
            assert(ps@.skip(i as int) =~= Seq::<Amf0Property>::empty());
        }
    }
    if i < ps.len() {
        let p = &ps[i];
        if p.key.len() == 0 || p.key.len() >= 0x10000 {
            return false;
        }
        proof {
            assert(decreases_to!(*ps => ps@[i as int].value));
        }
        if !check_wf_value(&p.value) {
            return false;
        }
        check_wf_props(ps, i + 1)
    } else {
        true
    }
}

/// Checks well-formedness of the values from index `i` on.
fn check_wf_list(vs: &Vec<Amf0Value>, i: usize) -> (r: bool)
    requires
        i <= vs@.len(),
    ensures
        r == wf_list(list_view(vs@.skip(i as int))),
    decreases *vs, vs@.len() - i, 1int,
{
    proof {
        if i < vs@.len() {
            lemma_list_suffix_unfold(vs@, i as int);
        } else {
            assert(vs@.skip(i as int) =~= Seq::<Amf0Value>::empty());
        }
    }
    if i < vs.len() {
        proof {
            assert(decreases_to!(*vs => vs@[i as int]));
        }
        if !check_wf_value(&vs[i]) {
            return false;
        }
        check_wf_list(vs, i + 1)
    } else {
        true
    }
}

/// Writes one well-formed value.
fn write_value_inner(w: &mut BytesWriter, v: &Amf0Value)
    requires
        wf_value(value_view(*v)),
    ensures
        final(w)@ == old(w)@ + enc_value(value_view(*v)),
    decreases *v, 1int,
{
    match v {
        Amf0Value::Number(b) => {
            w.write_u8(MARKER_NUMBER);
            w.write_u64(*b);
            proof {
                assert(w@ =~= old(w)@ + enc_value(value_view(*v)));
            }
        },
        Amf0Value::Boolean(f) => {
            w.write_u8(MARKER_BOOLEAN);
            w.write_u8(if *f { 1 } else { 0 });
            proof {
                assert(w@ =~= old(w)@ + enc_value(value_view(*v)));
            }
        },
        Amf0Value::Utf8String(s) => {
            w.write_u8(MARKER_STRING);
            w.write_u16(s.len() as u16);
            w.write(s.as_slice());
            proof {
                assert(w@ =~= old(w)@ + enc_value(value_view(*v)));
            }
        },
        Amf0Value::Object(props) => {
            w.write_u8(MARKER_OBJECT);
            proof {
                assert(props@.skip(0) =~= props@);
            }
            write_props(w, props, 0);
            w.write_u8(0);
            w.write_u8(0);
            w.write_u8(MARKER_OBJECT_END);
            proof {
                assert(w@ =~= old(w)@ + enc_value(value_view(*v)));
            }
        },
        Amf0Value::Null => {
            w.write_u8(MARKER_NULL);
            proof {
                assert(w@ =~= old(w)@ + enc_value(value_view(*v)));
            }
        },
        Amf0Value::EcmaArray(props) => {
            w.write_u8(MARKER_ECMA_ARRAY);
            w.write_u32(props.len() as u32);
            proof {
                assert(props@.skip(0) =~= props@);
                assert(props_view(props@).len() == props@.len()) by {
                    lemma_props_view_len(props@);
                }
            }
            write_props(w, props, 0);
            w.write_u8(0);
            w.write_u8(0);
            w.write_u8(MARKER_OBJECT_END);
            proof {
                assert(w@ =~= old(w)@ + enc_value(value_view(*v)));
            }
        },
        Amf0Value::StrictArray(vals) => {
            w.write_u8(MARKER_STRICT_ARRAY);
            w.write_u32(vals.len() as u32);
            proof {
                assert(vals@.skip(0) =~= vals@);
                assert(list_view(vals@).len() == vals@.len()) by {
                    lemma_list_view_len(vals@);
                }
            }
            write_list(w, vals, 0);
            proof {
                assert(w@ =~= old(w)@ + enc_value(value_view(*v)));
            }
        },
    }
}


/// Writes the properties from index `i` on, without the closing marker.
fn write_props(w: &mut BytesWriter, ps: &Vec<Amf0Property>, i: usize)
    requires
        i <= ps@.len(),
        wf_props(props_view(ps@.skip(i as int))),
    ensures
        final(w)@ == old(w)@ + enc_props(props_view(ps@.skip(i as int))),
    decreases *ps, ps@.len() - i, 1int,
{
    proof {
        if i < ps@.len() {
            lemma_props_suffix_unfold(ps@, i as int);
        } else {
            assert(ps@.skip(i as int) =~= Seq::<Amf0Property>::empty());
        }
    }
    if i < ps.len() {
        let p = &ps[i];
        w.write_u16(p.key.len() as u16);
        w.write(p.key.as_slice());
        proof {
            assert(decreases_to!(*ps => ps@[i as int].value));
        }
        write_value_inner(w, &p.value);
        write_props(w, ps, i + 1);
        proof {
            assert(w@ =~= old(w)@ + enc_props(props_view(ps@.skip(i as int))));
        }
    }
}

/// Writes the values from index `i` on.
fn write_list(w: &mut BytesWriter, vs: &Vec<Amf0Value>, i: usize)
    requires
        i <= vs@.len(),
        wf_list(list_view(vs@.skip(i as int))),
    ensures
        final(w)@ == old(w)@ + enc_list(list_view(vs@.skip(i as int))),
    decreases *vs, vs@.len() - i, 1int,
{
    proof {
        if i < vs@.len() {
            lemma_list_suffix_unfold(vs@, i as int);
        } else {
            assert(vs@.skip(i as int) =~= Seq::<Amf0Value>::empty());
        }
    }
    if i < vs.len() {
        proof {
            assert(decreases_to!(*vs => vs@[i as int]));
        }
        write_value_inner(w, &vs[i]);
        write_list(w, vs, i + 1);
        proof {
            assert(w@ =~= old(w)@ + enc_list(list_view(vs@.skip(i as int))));
        }
    }
}

/// Writes one AMF0 value, or reports that it lies outside the supported
/// set, leaving the writer untouched in that case.
pub fn amf0_write_value(w: &mut BytesWriter, v: &Amf0Value) -> (r: Result<(), Amf0WriteError>)
    ensures
        r is Ok <==> wf_value(v@),
        r is Ok ==> final(w)@ == old(w)@ + enc_value(v@),
        r is Err ==> final(w)@ == old(w)@,
{
    if check_wf_value(v) {
        write_value_inner(w, v);
        Ok(())
    } else {
        Err(Amf0WriteError { value: Amf0WriteErrorValue::NotSupported })
    }
}

/// Copies `buf[start .. start + n]` out.
fn copy_range(buf: &Vec<u8>, start: usize, n: usize) -> (out: Vec<u8>)
    requires
        start + n <= buf@.len(),
    ensures
        out@ == buf@.subrange(start as int, start as int + n as int),
{
    let buflen = buf.len();
    let mut out: Vec<u8> = Vec::new();
    let mut i: usize = 0;
    while i < n
        invariant
            i <= n,
            buflen == buf@.len(),
            start + n <= buflen,
            out@ == buf@.subrange(start as int, start as int + i as int),
        decreases n - i,
    {
        out.push(buf[start + i]);
        i = i + 1;
        proof {
            assert(out@ =~= buf@.subrange(start as int, start as int + i as int));
        }
    }
    out
}

/// Parses one value at `pos`; on success returns it with the position just
/// after it. Follows `dec_value` exactly.
fn parse_value(buf: &Vec<u8>, pos: usize) -> (res: Result<(Amf0Value, usize), Amf0ReadError>)
    requires
        pos <= buf@.len(),
    ensures
        dec_value(buf@.skip(pos as int)) matches Some(vn) ==> (res matches Ok(vp) && vp.0@ == vn.0
            && vp.1 == pos + vn.1 && pos < vp.1 <= buf@.len()),
        dec_value(buf@.skip(pos as int)) is None ==> res is Err,
    decreases buf@.len() - pos, 0int,
{
    let ghost s = buf@.skip(pos as int);
    let remaining = buf.len() - pos;
    if remaining < 1 {
        return Err(Amf0ReadError { value: Amf0ReadErrorValue::NotEnoughBytes });
    }
    let marker = buf[pos];
    proof {
        assert(s[0] == marker);
    }
    if marker == MARKER_NUMBER {
        if remaining < 9 {
            return Err(Amf0ReadError { value: Amf0ReadErrorValue::NotEnoughBytes });
        }
        let bits = ((buf[pos + 1] as u64) << 56u64) | ((buf[pos + 2] as u64) << 48u64) | ((buf[pos
            + 3] as u64) << 40u64) | ((buf[pos + 4] as u64) << 32u64) | ((buf[pos + 5] as u64)
            << 24u64) | ((buf[pos + 6] as u64) << 16u64) | ((buf[pos + 7] as u64) << 8u64) | (
        buf[pos + 8] as u64);
        Ok((Amf0Value::Number(bits), pos + 9))
    } else if marker == MARKER_BOOLEAN {
        if remaining < 2 {
            return Err(Amf0ReadError { value: Amf0ReadErrorValue::NotEnoughBytes });
        }
        Ok((Amf0Value::Boolean(buf[pos + 1] != 0), pos + 2))
    } else if marker == MARKER_STRING {
        if remaining < 3 {
            return Err(Amf0ReadError { value: Amf0ReadErrorValue::NotEnoughBytes });
        }
        let klen = (((buf[pos + 1] as u16) << 8u16) | (buf[pos + 2] as u16)) as usize;
        if remaining < 3 + klen {
            return Err(Amf0ReadError { value: Amf0ReadErrorValue::NotEnoughBytes });
        }
        let bytes = copy_range(buf, pos + 3, klen);
        proof {
            assert(bytes@ =~= s.subrange(3, 3 + klen as int));
        }
        Ok((Amf0Value::Utf8String(bytes), pos + 3 + klen))
    } else if marker == MARKER_OBJECT {
        proof {
            assert(buf@.skip(pos as int + 1) =~= s.skip(1));
        }
        match parse_props(buf, pos + 1) {
            Ok((props, p2)) => Ok((Amf0Value::Object(props), p2)),
            Err(e) => Err(e),
        }
    } else if marker == MARKER_NULL {
        Ok((Amf0Value::Null, pos + 1))
    } else if marker == MARKER_ECMA_ARRAY {
        if remaining < 5 {
            return Err(Amf0ReadError { value: Amf0ReadErrorValue::NotEnoughBytes });
        }
        proof {
            assert(buf@.skip(pos as int + 5) =~= s.skip(5));
        }
        match parse_props(buf, pos + 5) {
            Ok((props, p2)) => Ok((Amf0Value::EcmaArray(props), p2)),
            Err(e) => Err(e),
        }
    } else if marker == MARKER_STRICT_ARRAY {
        if remaining < 5 {
            return Err(Amf0ReadError { value: Amf0ReadErrorValue::NotEnoughBytes });
        }
        let count = ((buf[pos + 1] as u32) << 24u32) | ((buf[pos + 2] as u32) << 16u32) | ((buf[pos
            + 3] as u32) << 8u32) | (buf[pos + 4] as u32);
        proof {
            assert(buf@.skip(pos as int + 5) =~= s.skip(5));
        }
        match parse_list(buf, pos + 5, count) {
            Ok((vals, p2)) => Ok((Amf0Value::StrictArray(vals), p2)),
            Err(e) => Err(e),
        }
    } else {
        Err(Amf0ReadError { value: Amf0ReadErrorValue::UnknownMarker })
    }
}

/// Parses properties at `pos` up to and including the closing bytes.
/// Follows `dec_props` exactly.
fn parse_props(buf: &Vec<u8>, pos: usize) -> (res: Result<
    (Vec<Amf0Property>, usize),
    Amf0ReadError,
>)
    requires
        pos <= buf@.len(),
    ensures
        dec_props(buf@.skip(pos as int)) matches Some(vn) ==> (res matches Ok(vp) && props_view(
            vp.0@,
        ) == vn.0 && vp.1 == pos + vn.1 && pos < vp.1 <= buf@.len()),
        dec_props(buf@.skip(pos as int)) is None ==> res is Err,
    decreases buf@.len() - pos, 1int,
{
    let ghost s = buf@.skip(pos as int);
    let remaining = buf.len() - pos;
    if remaining >= 3 && buf[pos] == 0 && buf[pos + 1] == 0 && buf[pos + 2] == MARKER_OBJECT_END {
        let out: Vec<Amf0Property> = Vec::new();
        proof {
            assert(props_view(out@) =~= Seq::<(Seq<u8>, Amf0SpecValue)>::empty());
        }
        return Ok((out, pos + 3));
    }
    if remaining < 2 {
        return Err(Amf0ReadError { value: Amf0ReadErrorValue::NotEnoughBytes });
    }
    let klen = (((buf[pos] as u16) << 8u16) | (buf[pos + 1] as u16)) as usize;
    if klen < 1 {
        return Err(Amf0ReadError { value: Amf0ReadErrorValue::InvalidKey });
    }
    if remaining < 2 + klen {
        return Err(Amf0ReadError { value: Amf0ReadErrorValue::NotEnoughBytes });
    }
    let key = copy_range(buf, pos + 2, klen);
    proof {
        assert(key@ =~= s.subrange(2, 2 + klen as int));
        assert(buf@.skip(pos as int + 2 + klen as int) =~= s.skip(2 + klen as int));
    }
    match parse_value(buf, pos + 2 + klen) {
        Ok((v, p2)) => {
            proof {
                assert(buf@.skip(p2 as int) =~= s.skip(p2 - pos));
            }
            match parse_props(buf, p2) {
                Ok((mut props, p3)) => {
                    let prop = Amf0Property { key, value: v };
                    let ghost before = props@;
                    props.insert(0, prop);
                    proof {
                        assert(props@[0] == prop);
                        assert(props@.subrange(1, props@.len() as int) =~= before);
                        assert(props_view(props@) =~= seq![(prop.key@, value_view(prop.value))]
                            + props_view(before));
                    }
                    Ok((props, p3))
                },
                Err(e) => Err(e),
            }
        },
        Err(e) => Err(e),
    }
}

/// Parses exactly `count` values at `pos`. Follows `dec_list` exactly.
fn parse_list(buf: &Vec<u8>, pos: usize, count: u32) -> (res: Result<
    (Vec<Amf0Value>, usize),
    Amf0ReadError,
>)
    requires
        pos <= buf@.len(),
    ensures
        dec_list(buf@.skip(pos as int), count as nat) matches Some(vn) ==> (res matches Ok(vp)
            && list_view(vp.0@) == vn.0 && vp.1 == pos + vn.1 && pos <= vp.1 <= buf@.len()),
        dec_list(buf@.skip(pos as int), count as nat) is None ==> res is Err,
    decreases buf@.len() - pos, 1 + count,
{
    let ghost s = buf@.skip(pos as int);
    if count == 0 {
        let out: Vec<Amf0Value> = Vec::new();
        proof {
            assert(list_view(out@) =~= Seq::<Amf0SpecValue>::empty());
        }
        return Ok((out, pos));
    }
    match parse_value(buf, pos) {
        Ok((v, p2)) => {
            proof {
                assert(buf@.skip(p2 as int) =~= s.skip(p2 - pos));
            }
            match parse_list(buf, p2, count - 1) {
                Ok((mut vals, p3)) => {
                    let ghost before = vals@;
                    vals.insert(0, v);
                    proof {
                        assert(vals@[0] == v);
                        assert(vals@.subrange(1, vals@.len() as int) =~= before);
                        assert(list_view(vals@) =~= seq![value_view(v)] + list_view(before));
                    }
                    Ok((vals, p3))
                },
                Err(e) => Err(e),
            }
        },
        Err(e) => Err(e),
    }
}

/// Reads one AMF0 value from the reader. On success the cursor stands just
/// after the value; exactly the inputs `dec_value` accepts are read.
pub fn amf0_read_value(reader: &mut BytesReader) -> (res: Result<Amf0Value, Amf0ReadError>)
    requires
        old(reader).wf(),
    ensures
        final(reader).wf(),
        dec_value(old(reader)@) matches Some(vn) ==> (res matches Ok(rv) && rv@ == vn.0
            && final(reader)@ == old(reader)@.skip(vn.1)),
        dec_value(old(reader)@) is None ==> res is Err && final(reader)@ == old(reader)@,
{
    match parse_value(&reader.buf, reader.pos) {
        Ok((v, p2)) => {
            proof {
                assert(reader.buf@.skip(p2 as int) =~= old(reader)@.skip(p2 - old(reader).pos));
            }
            reader.pos = p2;
            Ok(v)
        },
        Err(e) => Err(e),
    }
}

} // verus!
