//! The `WS01` frame envelope: a 24-byte little-endian header followed by the
//! payload.
//!
//! | offset | size | field |
//! |--------|------|-------|
//! | 0      | 2    | magic `WS` |
//! | 2      | 1    | version |
//! | 3      | 1    | frame type |
//! | 4      | 8    | sequence number |
//! | 12     | 8    | origin timestamp (ns) |
//! | 20     | 4    | payload length |
//! | 24     | n    | payload |

use vstd::prelude::*;
use crate::bytes::{
    lemma_from_le4_value, lemma_from_le8_value, pow256, lemma_le4_digits, lemma_le8_digits, from_le4, from_le8, get_u32, get_u64, le4, le8, lemma_from_le4_roundtrip,
    lemma_from_le8_roundtrip, lemma_le4_roundtrip, lemma_le8_roundtrip, put_u32, put_u64,
};

verus! {

/// The two magic bytes `WS` that open every frame.
pub const MAGIC: [u8; 2] = [0x57, 0x53];

/// The format version written by `Frame::encode`.
pub const VERSION: u8 = 1;

/// Length of the fixed frame header in bytes.
pub const HDR_LEN: usize = 24;

/// What a frame carries.
#[derive(Clone, Copy, Debug, PartialEq, Eq, Structural)]
pub enum FrameType {
    Spectrum,
    DepthTrace,
    Features,
    Verdict,
    Hello,
    Bye,
}

/// The type byte written for `t`.
pub open spec fn type_byte(t: FrameType) -> u8 {
    match t {
        FrameType::Spectrum => 0,
        FrameType::DepthTrace => 1,
        FrameType::Features => 2,
        FrameType::Verdict => 3,
        FrameType::Hello => 4,
        FrameType::Bye => 5,
    }
}

/// The frame type read from a type byte: `0..=4` name their types, every other
/// byte reads as `Bye`.
pub open spec fn type_of_byte(b: u8) -> FrameType {
    if b == 0 {
        FrameType::Spectrum
    } else if b == 1 {
        FrameType::DepthTrace
    } else if b == 2 {
        FrameType::Features
    } else if b == 3 {
        FrameType::Verdict
    } else if b == 4 {
        FrameType::Hello
    } else {
        FrameType::Bye
    }
}

impl FrameType {
    /// The type byte of this frame type on the wire.
    pub fn to_byte(self) -> (b: u8)
        ensures
            b == type_byte(self),
    {
        match self {
            FrameType::Spectrum => 0,
            FrameType::DepthTrace => 1,
            FrameType::Features => 2,
            FrameType::Verdict => 3,
            FrameType::Hello => 4,
            FrameType::Bye => 5,
        }
    }

    /// The frame type that a type byte names (`Bye` for any byte above 4).
    pub fn from_byte(b: u8) -> (t: FrameType)
        ensures
            t == type_of_byte(b),
    {
        match b {
            0 => FrameType::Spectrum,
            1 => FrameType::DepthTrace,
            2 => FrameType::Features,
            3 => FrameType::Verdict,
            4 => FrameType::Hello,
            _ => FrameType::Bye,
        }
    }
}

/// Mathematical model of a frame.
pub struct FrameView {
    pub ty: FrameType,
    pub seq: u64,
    pub ts_ns: u64,
    pub payload: Seq<u8>,
}

/// One frame of the pipeline.
#[derive(Clone, Debug)]
pub struct Frame {
    pub ty: FrameType,
    pub seq: u64,
    pub ts_ns: u64,
    pub payload: Vec<u8>,
}

impl View for Frame {
    type V = FrameView;

    open spec fn view(&self) -> FrameView {
        FrameView { ty: self.ty, seq: self.seq, ts_ns: self.ts_ns, payload: self.payload@ }
    }
}

/// The decoded fields of a frame header.
#[derive(Clone, Copy, Debug, PartialEq, Eq, Structural)]
pub struct FrameHeader {
    pub ty: FrameType,
    pub seq: u64,
    pub ts_ns: u64,
    pub payload_len: u32,
}

/// Why a header was refused.
#[derive(Clone, Copy, Debug, PartialEq, Eq, Structural)]
pub enum HeaderError {
    /// Fewer than `HDR_LEN` bytes.
    TooShort,
    /// The first two bytes are not `WS`.
    BadMagic,
}

/// The bytes of a frame: header, then payload. The length field holds the
/// payload length cut to 32 bits.
pub open spec fn spec_encode(f: FrameView) -> Seq<u8> {
    seq![MAGIC[0], MAGIC[1], VERSION, type_byte(f.ty)] + le8(f.seq) + le8(f.ts_ns) + le4(
        f.payload.len() as u32,
    ) + f.payload
}

/// True when `b` starts with the magic bytes.
pub open spec fn has_magic(b: Seq<u8>) -> bool {
    b[0] == MAGIC[0] && b[1] == MAGIC[1]
}

/// The header fields read from the first `HDR_LEN` bytes of `b`.
pub open spec fn spec_header(b: Seq<u8>) -> FrameHeader {
    FrameHeader {
        ty: type_of_byte(b[3]),
        seq: from_le8(b.subrange(4, 12)),
        ts_ns: from_le8(b.subrange(12, 20)),
        payload_len: from_le4(b.subrange(20, 24)),
    }
}

/// The header parse of `b`: too short, bad magic, or the header fields.
pub open spec fn spec_parse_header(b: Seq<u8>) -> Result<FrameHeader, HeaderError> {
    if b.len() < HDR_LEN {
        Err(HeaderError::TooShort)
    } else if !has_magic(b) {
        Err(HeaderError::BadMagic)
    } else {
        Ok(spec_header(b))
    }
}

/// The frame that `b` decodes to: a header with the magic bytes and at least
/// as many payload bytes as the header announces. Bytes after the payload are
/// ignored; the version byte is not checked.
pub open spec fn spec_decode(b: Seq<u8>) -> Option<FrameView> {
    match spec_parse_header(b) {
        Ok(h) => if b.len() < HDR_LEN + h.payload_len {
            None
        } else {
            Some(
                FrameView {
                    ty: h.ty,
                    seq: h.seq,
                    ts_ns: h.ts_ns,
                    payload: b.subrange(HDR_LEN as int, HDR_LEN + h.payload_len),
                },
            )
        },
        Err(_) => None,
    }
}


/// Reading back the byte of a frame type gives the frame type.
pub proof fn lemma_type_byte_roundtrip(t: FrameType)
    ensures
        type_of_byte(type_byte(t)) == t,
{
}

/// An encoded frame is the header followed by the payload.
pub proof fn law_encode_len(f: FrameView)
    ensures
        spec_encode(f).len() == HDR_LEN + f.payload.len(),
{
}

/// Decoding the encoding of a frame gives the frame back, whenever its payload
/// length fits the 32-bit length field.
pub proof fn law_decode_encode(f: FrameView)
    requires
        f.payload.len() <= u32::MAX,
    ensures
        spec_decode(spec_encode(f)) == Some(f),
{
    let e = spec_encode(f);
    let n = f.payload.len();
    assert(e.subrange(4, 12) =~= le8(f.seq));
    assert(e.subrange(12, 20) =~= le8(f.ts_ns));
    assert(e.subrange(20, 24) =~= le4(n as u32));
    assert(e.subrange(24, 24 + n as int) =~= f.payload);
    lemma_le8_roundtrip(f.seq);
    lemma_le8_roundtrip(f.ts_ns);
    lemma_le4_roundtrip(n as u32);
    lemma_type_byte_roundtrip(f.ty);
    assert(spec_header(e).payload_len == n);
}

/// Every proper prefix of an encoded frame is refused.
pub proof fn law_truncated_frame_is_refused(f: FrameView, k: nat)
    requires
        f.payload.len() <= u32::MAX,
        k < spec_encode(f).len(),
    ensures
        spec_decode(spec_encode(f).take(k as int)) is None,
{
    let e = spec_encode(f);
    let t = e.take(k as int);
    let n = f.payload.len();
    if k >= HDR_LEN {
        assert(t.subrange(20, 24) =~= le4(n as u32));
        lemma_le4_roundtrip(n as u32);
        assert(spec_header(t).payload_len == n);
    }
}

/// A decoded frame fixes the bytes it was read from: they are its encoding,
/// save the version byte, which is not checked, and the type byte, which
/// reads as the frame's type. The payload length fits the length field.
pub proof fn law_decoded_bytes_are_encoding(b: Seq<u8>)
    requires
        spec_decode(b) is Some,
    ensures
        ({
            let f = spec_decode(b)->0;
            &&& f.payload.len() <= u32::MAX
            &&& type_of_byte(b[3]) == f.ty
            &&& b.take(HDR_LEN + f.payload.len()) == spec_encode(f).update(2, b[2]).update(3, b[3])
        }),
{
    let f = spec_decode(b)->0;
    let n = f.payload.len();
    let e = spec_encode(f);
    lemma_from_le8_roundtrip(b.subrange(4, 12));
    lemma_from_le8_roundtrip(b.subrange(12, 20));
    lemma_from_le4_roundtrip(b.subrange(20, 24));
    let lhs = b.take(HDR_LEN + n);
    let rhs = e.update(2, b[2]).update(3, b[3]);
    assert(lhs.len() == rhs.len());
    assert forall|i: int| 0 <= i < lhs.len() implies lhs[i] == rhs[i] by {
        if 4 <= i < 12 {
            assert(b.subrange(4, 12)[i - 4] == le8(f.seq)[i - 4]);
        } else if 12 <= i < 20 {
            assert(b.subrange(12, 20)[i - 12] == le8(f.ts_ns)[i - 12]);
        } else if 20 <= i < 24 {
            assert(b.subrange(20, 24)[i - 20] == le4(n as u32)[i - 20]);
        }
    }
    assert(lhs =~= rhs);
}

/// When the version byte is `VERSION` and the type byte names a frame type,
/// the bytes a frame was decoded from are exactly its encoding.
pub proof fn law_encode_decode(b: Seq<u8>)
    requires
        spec_decode(b) is Some,
        b[2] == VERSION,
        b[3] <= 5,
    ensures
        b.take(HDR_LEN + (spec_decode(b)->0).payload.len()) == spec_encode(spec_decode(b)->0),
{
    law_decoded_bytes_are_encoding(b);
    let f = spec_decode(b)->0;
    let e = spec_encode(f);
    assert(e.update(2, b[2]).update(3, b[3]) =~= e);
}

/// Two byte strings that decode to the same frame agree on every byte of it
/// but the version byte and the type byte.
pub proof fn law_decode_is_injective(b1: Seq<u8>, b2: Seq<u8>)
    requires
        spec_decode(b1) is Some,
        spec_decode(b1) == spec_decode(b2),
    ensures
        ({
            let n = HDR_LEN + (spec_decode(b1)->0).payload.len();
            forall|i: int| 0 <= i < n && i != 2 && i != 3 ==> b1[i] == b2[i]
        }),
{
    law_decoded_bytes_are_encoding(b1);
    law_decoded_bytes_are_encoding(b2);
    let n = HDR_LEN + (spec_decode(b1)->0).payload.len();
    assert forall|i: int| 0 <= i < n && i != 2 && i != 3 implies b1[i] == b2[i] by {
        assert(b1.take(n as int)[i] == b2.take(n as int)[i]);
    }
}

/// Bytes after a frame do not change what it decodes to.
pub proof fn law_decode_ignores_trailing_bytes(b: Seq<u8>, rest: Seq<u8>)
    requires
        spec_decode(b) is Some,
    ensures
        spec_decode(b + rest) == spec_decode(b),
{
    let c = b + rest;
    assert(c.subrange(4, 12) =~= b.subrange(4, 12));
    assert(c.subrange(12, 20) =~= b.subrange(12, 20));
    assert(c.subrange(20, 24) =~= b.subrange(20, 24));
    let n = spec_header(b).payload_len;
    assert(c.subrange(HDR_LEN as int, HDR_LEN + n) =~= b.subrange(HDR_LEN as int, HDR_LEN + n));
}

/// A forwarded frame carries the origin of the frame it answers: its encoding
/// holds the same sequence-number and timestamp bytes.
pub proof fn law_forward_keeps_origin(f: FrameView, g: FrameView)
    requires
        g.seq == f.seq,
        g.ts_ns == f.ts_ns,
    ensures
        spec_encode(g).subrange(4, 20) == spec_encode(f).subrange(4, 20),
{
    assert(spec_encode(g).subrange(4, 20) =~= le8(f.seq) + le8(f.ts_ns));
    assert(spec_encode(f).subrange(4, 20) =~= le8(f.seq) + le8(f.ts_ns));
}

/// Reading a header and then the payload length it announces gives the frame
/// that decoding the header and payload together gives.
pub proof fn law_header_then_payload(h: Seq<u8>, p: Seq<u8>)
    requires
        h.len() == HDR_LEN,
        spec_parse_header(h) is Ok,
        p.len() == (spec_parse_header(h)->Ok_0).payload_len,
    ensures
        ({
            let hd = spec_parse_header(h)->Ok_0;
            spec_decode(h + p) == Some(
                FrameView { ty: hd.ty, seq: hd.seq, ts_ns: hd.ts_ns, payload: p },
            )
        }),
{
    let b = h + p;
    assert(b.subrange(4, 12) =~= h.subrange(4, 12));
    assert(b.subrange(12, 20) =~= h.subrange(12, 20));
    assert(b.subrange(20, 24) =~= h.subrange(20, 24));
    assert(b.subrange(HDR_LEN as int, HDR_LEN + p.len()) =~= p);
}

/// The frame-type codes of the wire format, at byte 3 of every encoded frame:
/// Spectrum 0, DepthTrace 1, Features 2, Verdict 3, Hello 4, Bye 5. Decoding
/// reads these codes back, and every code above 5 as Bye.
pub proof fn law_frame_type_codes(f: FrameView, b: Seq<u8>)
    ensures
        f.ty == FrameType::Spectrum ==> spec_encode(f)[3] == 0,
        f.ty == FrameType::DepthTrace ==> spec_encode(f)[3] == 1,
        f.ty == FrameType::Features ==> spec_encode(f)[3] == 2,
        f.ty == FrameType::Verdict ==> spec_encode(f)[3] == 3,
        f.ty == FrameType::Hello ==> spec_encode(f)[3] == 4,
        f.ty == FrameType::Bye ==> spec_encode(f)[3] == 5,
        spec_decode(b) is Some ==> {
            let g = spec_decode(b)->0;
            &&& b[3] == 0 ==> g.ty == FrameType::Spectrum
            &&& b[3] == 1 ==> g.ty == FrameType::DepthTrace
            &&& b[3] == 2 ==> g.ty == FrameType::Features
            &&& b[3] == 3 ==> g.ty == FrameType::Verdict
            &&& b[3] == 4 ==> g.ty == FrameType::Hello
            &&& b[3] >= 5 ==> g.ty == FrameType::Bye
        },
{
}

/// The header layout of the wire format: magic `WS` at bytes 0..2, the
/// version at byte 2, the sequence number at bytes 4..12, the timestamp at
/// bytes 12..20 and the payload length at bytes 20..24, each little-endian,
/// then the payload.
pub proof fn law_header_layout(f: FrameView)
    ensures
        spec_encode(f)[0] == 0x57,
        spec_encode(f)[1] == 0x53,
        spec_encode(f)[2] == 1,
        forall|i: int| 0 <= i < 8 ==> spec_encode(f)[4 + i] == (f.seq as int / pow256(i)) % 256,
        forall|i: int| 0 <= i < 8 ==> spec_encode(f)[12 + i] == (f.ts_ns as int / pow256(i)) % 256,
        f.payload.len() <= u32::MAX ==> forall|i: int|
            0 <= i < 4 ==> spec_encode(f)[20 + i] == (f.payload.len() as int / pow256(i)) % 256,
        spec_encode(f).subrange(HDR_LEN as int, spec_encode(f).len() as int) == f.payload,
{
    let e = spec_encode(f);
    lemma_le8_digits(f.seq);
    lemma_le8_digits(f.ts_ns);
    let n = f.payload.len() as u32;
    lemma_le4_digits(n);
    assert forall|i: int| 0 <= i < 8 implies e[4 + i] == le8(f.seq)[i] by {}
    assert forall|i: int| 0 <= i < 8 implies e[12 + i] == le8(f.ts_ns)[i] by {}
    assert forall|i: int| 0 <= i < 4 implies e[20 + i] == le4(n)[i] by {}
    assert(e.subrange(HDR_LEN as int, e.len() as int) =~= f.payload);
}

/// Decoding a header reads the sequence number from bytes 4..12, the
/// timestamp from bytes 12..20 and the payload length from bytes 20..24, each
/// low byte first, and refuses exactly the inputs that are short or lack `WS`.
pub proof fn law_header_decode_layout(b: Seq<u8>)
    ensures
        spec_parse_header(b) is Err <==> (b.len() < 24 || b[0] != 0x57 || b[1] != 0x53),
        spec_parse_header(b) is Ok ==> {
            let h = spec_parse_header(b)->Ok_0;
            &&& h.seq == b[4] + 0x100 * b[5] + 0x1_0000 * b[6] + 0x100_0000 * b[7] + 0x1_0000_0000
                * b[8] + 0x100_0000_0000 * b[9] + 0x1_0000_0000_0000 * b[10]
                + 0x100_0000_0000_0000 * b[11]
            &&& h.ts_ns == b[12] + 0x100 * b[13] + 0x1_0000 * b[14] + 0x100_0000 * b[15]
                + 0x1_0000_0000 * b[16] + 0x100_0000_0000 * b[17] + 0x1_0000_0000_0000 * b[18]
                + 0x100_0000_0000_0000 * b[19]
            &&& h.payload_len == b[20] + 0x100 * b[21] + 0x1_0000 * b[22] + 0x100_0000 * b[23]
        },
{
    if b.len() >= 24 {
        lemma_from_le8_value(b.subrange(4, 12));
        lemma_from_le8_value(b.subrange(12, 20));
        lemma_from_le4_value(b.subrange(20, 24));
    }
}

/// Reads a frame header from the first `HDR_LEN` bytes of `buf`.
pub fn parse_header(buf: &[u8]) -> (r: Result<FrameHeader, HeaderError>)
    ensures
        r == spec_parse_header(buf@),
{
    if buf.len() < HDR_LEN {
        return Err(HeaderError::TooShort);
    }
    if buf[0] != MAGIC[0] || buf[1] != MAGIC[1] {
        return Err(HeaderError::BadMagic);
    }
    Ok(
        FrameHeader {
            ty: FrameType::from_byte(buf[3]),
            seq: get_u64(buf, 4),
            ts_ns: get_u64(buf, 12),
            payload_len: get_u32(buf, 20),
        },
    )
}

/// A copy of `buf[start..end]`.
fn copy_range(buf: &[u8], start: usize, end: usize) -> (r: Vec<u8>)
    requires
        start <= end <= buf@.len(),
    ensures
        r@ == buf@.subrange(start as int, end as int),
{
    let mut out: Vec<u8> = Vec::new();
    let mut i = start;
    while i < end
        invariant
            start <= i <= end <= buf@.len(),
            out@ == buf@.subrange(start as int, i as int),
        decreases end - i,
    {
        out.push(buf[i]);
        i = i + 1;
        assert(out@ =~= buf@.subrange(start as int, i as int));
    }
    out
}

impl Frame {
    pub fn new(ty: FrameType, seq: u64, ts_ns: u64, payload: Vec<u8>) -> (f: Frame)
        ensures
            f@ == (FrameView { ty, seq, ts_ns, payload: payload@ }),
    {
        Frame { ty, seq, ts_ns, payload }
    }

    /// The frame that a pipeline stage sends on for this one: a new type and
    /// payload under the same sequence number and origin timestamp, so that
    /// both follow the originating spectrum through the whole pipeline.
    pub fn forward(&self, ty: FrameType, payload: Vec<u8>) -> (f: Frame)
        ensures
            f@ == (FrameView { ty, seq: self.seq, ts_ns: self.ts_ns, payload: payload@ }),
    {
        Frame { ty, seq: self.seq, ts_ns: self.ts_ns, payload }
    }

    /// The wire bytes of this frame.
    pub fn encode(&self) -> (b: Vec<u8>)
        ensures
            b@ == spec_encode(self@),
    {
        let mut b: Vec<u8> = Vec::new();
        b.push(MAGIC[0]);
        b.push(MAGIC[1]);
        b.push(VERSION);
        b.push(self.ty.to_byte());
        put_u64(&mut b, self.seq);
        put_u64(&mut b, self.ts_ns);
        put_u32(&mut b, self.payload.len() as u32);
        let ghost head = b@;
        let mut i: usize = 0;
        while i < self.payload.len()
            invariant
                i <= self.payload@.len(),
                b@ == head + self.payload@.subrange(0, i as int),
            decreases self.payload@.len() - i,
        {
            b.push(self.payload[i]);
            i = i + 1;
            assert(b@ =~= head + self.payload@.subrange(0, i as int));
        }
        assert(self.payload@.subrange(0, self.payload@.len() as int) =~= self.payload@);
        assert(b@ =~= spec_encode(self@));
        b
    }

    /// The frame at the start of `buf`, or `None` when `buf` is shorter than a
    /// header, lacks the magic bytes, or holds fewer payload bytes than the
    /// header announces.
    pub fn decode(buf: &[u8]) -> (r: Option<Frame>)
        ensures
            r is Some <==> spec_decode(buf@) is Some,
            r matches Some(f) ==> spec_decode(buf@) == Some(f@),
    {
        let h = match parse_header(buf) {
            Ok(h) => h,
            Err(_) => return None,
        };
        let len = h.payload_len as usize;
        if buf.len() - HDR_LEN < len {
            return None;
        }
        let payload = copy_range(buf, HDR_LEN, HDR_LEN + len);
        Some(Frame { ty: h.ty, seq: h.seq, ts_ns: h.ts_ns, payload })
    }
}

} // verus!
