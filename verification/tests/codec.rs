use weldscope::codec::{
    depth_dec, depth_enc, features_dec, features_enc, spectrum_dec, spectrum_enc, verdict_dec,
    verdict_enc,
};

struct Lcg(u64);

impl Lcg {
    fn next(&mut self) -> u64 {
        self.0 = self
            .0
            .wrapping_mul(6_364_136_223_846_793_005)
            .wrapping_add(1_442_695_040_888_963_407);
        self.0
    }
}

/// Display quantization of a spectrum sample, as the acquisition stage does.
fn quantize(v: f32) -> u16 {
    v.clamp(0.0, 4095.0) as u16
}

fn bits(v: &[f32]) -> Vec<u32> {
    v.iter().map(|x| x.to_bits()).collect()
}

fn floats(v: &[u32]) -> Vec<f32> {
    v.iter().map(|&x| f32::from_bits(x)).collect()
}

#[test]
fn codec_roundtrips_are_byte_exact() {
    let mut l = Lcg(1234);
    for _ in 0..50 {
        let spec: Vec<f32> = (0..64).map(|_| (l.next() % 4096) as f32).collect();
        let q: Vec<u16> = spec.iter().map(|&v| quantize(v)).collect();
        let b = spectrum_enc(&q);
        let dec: Vec<f32> = spectrum_dec(&b).iter().map(|&v| v as f32).collect();
        assert_eq!(dec, spec);
        assert_eq!(spectrum_enc(&spectrum_dec(&b)), b);

        let d: Vec<f32> = (0..16).map(|_| f32::from_bits((l.next() >> 32) as u32)).collect();
        let db = depth_enc(&bits(&d));
        assert_eq!(depth_enc(&depth_dec(&db)), db);

        let fv: [f32; 8] = [0.0; 8].map(|_| f32::from_bits((l.next() >> 32) as u32));
        let fb = features_enc(&fv.map(|x| x.to_bits()));
        assert_eq!(features_enc(&features_dec(&fb)), fb);

        let cls = l.next() as u8;
        let conf = f32::from_bits((l.next() >> 32) as u32);
        let vb = verdict_enc(cls, conf.to_bits());
        let (c2, f2) = verdict_dec(&vb);
        assert_eq!(verdict_enc(c2, f2), vb);
    }
}

#[test]
fn spectrum_roundtrip() {
    let s: Vec<f32> = (0..64).map(|i| (i as f32) * 5.0).collect();
    let q: Vec<u16> = s.iter().map(|&v| quantize(v)).collect();
    let d: Vec<f32> = spectrum_dec(&spectrum_enc(&q)).iter().map(|&v| v as f32).collect();
    assert_eq!(s, d);
}

#[test]
fn depth_roundtrip() {
    let d: Vec<f32> = (0..1024).map(|i| 0.001 * i as f32).collect();
    assert_eq!(floats(&depth_dec(&depth_enc(&bits(&d)))), d);
}

#[test]
fn features_roundtrip() {
    let f = [1.0f32, 2.0, 3.0, 4.0, 5.0, 6.0, 7.0, 8.0];
    assert_eq!(features_dec(&features_enc(&f.map(|x| x.to_bits()))).map(f32::from_bits), f);
}

#[test]
fn verdict_roundtrip() {
    let (c, b) = verdict_dec(&verdict_enc(3, 0.87f32.to_bits()));
    assert_eq!((c, f32::from_bits(b)), (3, 0.87));
}

#[test]
fn spectrum_payload_layout() {
    let b = spectrum_enc(&[1, 0x0203, 4095]);
    assert_eq!(b, vec![3, 0, 1, 0, 3, 2, 0xff, 0x0f]);
    assert_eq!(spectrum_dec(&b), vec![1, 0x0203, 4095]);
}

#[test]
fn decoders_read_only_the_announced_samples() {
    let mut b = depth_enc(&[0xdead_beef]);
    b.extend_from_slice(&[1, 2, 3, 4]);
    assert_eq!(depth_dec(&b), vec![0xdead_beef]);
    assert_eq!(b[..6], [1, 0, 0xef, 0xbe, 0xad, 0xde]);
    let v = verdict_enc(7, 0x3f80_0000);
    assert_eq!(v, vec![7, 0, 0, 0x80, 0x3f]);
}

#[test]
fn spectrum_count_wraps_at_16_bits() {
    let q = vec![0u16; 65537];
    let b = spectrum_enc(&q);
    assert_eq!(&b[0..2], &[1, 0]);
    assert_eq!(b.len(), 2 + 2 * 65537);
    assert_eq!(spectrum_dec(&b), vec![0u16]);
}
