use weldscope::frame::{parse_header, Frame, FrameHeader, FrameType, HeaderError, HDR_LEN};

/// Tiny deterministic LCG (numerical-recipes constants) for fuzz inputs.
struct Lcg(u64);

impl Lcg {
    fn next(&mut self) -> u64 {
        self.0 = self
            .0
            .wrapping_mul(6_364_136_223_846_793_005)
            .wrapping_add(1_442_695_040_888_963_407);
        self.0
    }
    fn byte(&mut self) -> u8 {
        (self.next() >> 33) as u8
    }
}

fn payload(l: &mut Lcg, n: usize) -> Vec<u8> {
    (0..n).map(|_| l.byte()).collect()
}

#[test]
fn frame_roundtrip_is_byte_exact() {
    let mut l = Lcg(42);
    let types = [
        FrameType::Spectrum,
        FrameType::DepthTrace,
        FrameType::Features,
        FrameType::Verdict,
        FrameType::Hello,
        FrameType::Bye,
    ];
    for i in 0..50u64 {
        let seq = l.next();
        let ts = l.next();
        let pl = payload(&mut l, (i as usize * 7) % 257);
        let f = Frame::new(types[(i % 6) as usize], seq, ts, pl);
        let bytes = f.encode();
        let g = Frame::decode(&bytes).expect("valid frame must decode");
        assert_eq!(g.ty, f.ty);
        assert_eq!(g.seq, f.seq);
        assert_eq!(g.ts_ns, f.ts_ns);
        assert_eq!(g.payload, f.payload);
        assert_eq!(g.encode(), bytes, "re-encode must be byte-identical");
    }
}

#[test]
fn truncated_input_is_never_a_panic() {
    let mut l = Lcg(7);
    for _ in 0..50 {
        let seq = l.next();
        let ts = l.next();
        let f = Frame::new(FrameType::DepthTrace, seq, ts, payload(&mut l, 64));
        let bytes = f.encode();
        for k in 0..bytes.len() {
            assert!(
                Frame::decode(&bytes[..k]).is_none(),
                "truncation to {k} bytes must be rejected"
            );
        }
    }
}

#[test]
fn corrupted_packet_is_rejected_or_changed() {
    let mut l = Lcg(99);
    for _ in 0..50 {
        let seq = l.next();
        let ts = l.next();
        let f = Frame::new(FrameType::Spectrum, seq, ts, payload(&mut l, 128));
        let bytes = f.encode();
        let mut cor = bytes.clone();
        // offset 2 is the version byte, which decode does not check
        let mut offs: Vec<usize> = Vec::with_capacity(4);
        while offs.len() < 4 {
            let p = (l.next() as usize) % bytes.len();
            if p != 2 && !offs.contains(&p) {
                offs.push(p);
                cor[p] ^= l.byte() | 1;
            }
        }
        if let Some(g) = Frame::decode(&cor) {
            let same = g.ty == f.ty && g.seq == f.seq && g.ts_ns == f.ts_ns && g.payload == f.payload;
            assert!(!same, "4-byte corruption decoded to an identical packet");
        }
    }
}

#[test]
fn frame_roundtrip() {
    let f = Frame::new(FrameType::Verdict, 42, 123456789, vec![1, 2, 3]);
    let g = Frame::decode(&f.encode()).unwrap();
    assert_eq!(g.ty, FrameType::Verdict);
    assert_eq!(g.seq, 42);
    assert_eq!(g.ts_ns, 123456789);
    assert_eq!(g.payload, vec![1, 2, 3]);
}

#[test]
fn encoded_header_layout_is_little_endian() {
    let f = Frame::new(FrameType::Features, 0x0102_0304_0506_0708, 0x1122_3344_5566_7788, vec![9, 8]);
    let b = f.encode();
    assert_eq!(b.len(), HDR_LEN + 2);
    assert_eq!(&b[0..4], &[0x57, 0x53, 1, 2]);
    assert_eq!(&b[4..12], &[8, 7, 6, 5, 4, 3, 2, 1]);
    assert_eq!(&b[12..20], &[0x88, 0x77, 0x66, 0x55, 0x44, 0x33, 0x22, 0x11]);
    assert_eq!(&b[20..24], &[2, 0, 0, 0]);
    assert_eq!(&b[24..], &[9, 8]);
}

#[test]
fn decode_rejects_bad_magic_and_short_payload() {
    let f = Frame::new(FrameType::Hello, 1, 2, vec![1, 2, 3, 4]);
    let mut b = f.encode();
    b[1] = b'X';
    assert!(Frame::decode(&b).is_none());
    let b = f.encode();
    assert!(Frame::decode(&b[..b.len() - 1]).is_none());
    assert!(Frame::decode(&[]).is_none());
}

#[test]
fn decode_ignores_trailing_bytes_and_version() {
    let f = Frame::new(FrameType::DepthTrace, 5, 6, vec![7; 10]);
    let mut b = f.encode();
    b[2] = 99;
    b.extend_from_slice(&[0xaa, 0xbb]);
    let g = Frame::decode(&b).unwrap();
    assert_eq!(g.ty, FrameType::DepthTrace);
    assert_eq!(g.payload, vec![7; 10]);
}

#[test]
fn unknown_type_byte_reads_as_bye() {
    let mut b = Frame::new(FrameType::Spectrum, 1, 1, vec![]).encode();
    b[3] = 200;
    assert_eq!(Frame::decode(&b).unwrap().ty, FrameType::Bye);
    assert_eq!(FrameType::from_byte(4), FrameType::Hello);
    assert_eq!(FrameType::Verdict.to_byte(), 3);
}

#[test]
fn header_parse_reports_each_error() {
    assert_eq!(parse_header(&[0x57, 0x53]), Err(HeaderError::TooShort));
    let mut hdr = [0u8; HDR_LEN];
    assert_eq!(parse_header(&hdr), Err(HeaderError::BadMagic));
    hdr[0] = 0x57;
    hdr[1] = 0x53;
    hdr[3] = 1;
    hdr[4] = 5;
    hdr[12] = 6;
    hdr[20] = 0x10;
    hdr[21] = 0x01;
    assert_eq!(
        parse_header(&hdr),
        Ok(FrameHeader { ty: FrameType::DepthTrace, seq: 5, ts_ns: 6, payload_len: 0x110 })
    );
}

#[test]
fn forwarded_frame_keeps_sequence_and_timestamp() {
    let f = Frame::new(FrameType::Spectrum, 77, 123_456, vec![1, 2, 3, 4]);
    let g = f.forward(FrameType::DepthTrace, vec![9]);
    assert_eq!(g.ty, FrameType::DepthTrace);
    assert_eq!((g.seq, g.ts_ns), (77, 123_456));
    assert_eq!(g.payload, vec![9]);
    assert_eq!(&g.encode()[4..20], &f.encode()[4..20]);
}

#[test]
fn header_then_payload_matches_decode() {
    let f = Frame::new(FrameType::Verdict, 3, 4, vec![5, 6, 7]);
    let b = f.encode();
    let h = parse_header(&b[..HDR_LEN]).unwrap();
    assert_eq!(h.payload_len, 3);
    let g = Frame::new(h.ty, h.seq, h.ts_ns, b[HDR_LEN..].to_vec());
    let d = Frame::decode(&b).unwrap();
    assert_eq!((g.ty, g.seq, g.ts_ns, g.payload), (d.ty, d.seq, d.ts_ns, d.payload));
}
