//! Payload codecs of the pipeline's frames.
//!
//! Samples travel as raw little-endian words: spectra as 16-bit quantized
//! samples, depth traces, feature vectors and confidences as the 32-bit
//! patterns of their `f32` values. These codecs move the words; they never
//! look at what the words mean.

use vstd::prelude::*;
use crate::bytes::{
    pow256, lemma_le2_digits, lemma_le4_digits, lemma_from_le2_value, lemma_from_le4_value,
    from_le2, from_le4, get_u16, get_u32, le2, le4, lemma_from_le2_roundtrip,
    lemma_from_le4_roundtrip, lemma_le2_roundtrip, lemma_le4_roundtrip, put_u16, put_u32,
};

verus! {

/// The little-endian bytes of each 16-bit word of `q`, in order.
pub open spec fn words2(q: Seq<u16>) -> Seq<u8> {
    Seq::new(2 * q.len(), |j: int| le2(q[j / 2])[j % 2])
}

/// The little-endian bytes of each 32-bit word of `q`, in order.
pub open spec fn words4(q: Seq<u32>) -> Seq<u8> {
    Seq::new(4 * q.len(), |j: int| le4(q[j / 4])[j % 4])
}

/// The 16-bit words read from `n` consecutive little-endian pairs of `b`
/// starting at `at`.
pub open spec fn read_words2(b: Seq<u8>, at: int, n: nat) -> Seq<u16> {
    Seq::new(n, |i: int| from_le2(b.subrange(at + 2 * i, at + 2 * i + 2)))
}

/// The 32-bit words read from `n` consecutive little-endian quadruples of `b`
/// starting at `at`.
pub open spec fn read_words4(b: Seq<u8>, at: int, n: nat) -> Seq<u32> {
    Seq::new(n, |i: int| from_le4(b.subrange(at + 4 * i, at + 4 * i + 4)))
}

/// The sample count announced by the first two bytes of a counted payload.
pub open spec fn count_of(b: Seq<u8>) -> nat {
    from_le2(b) as nat
}

proof fn lemma_words2_push(q: Seq<u16>, i: int)
    requires
        0 <= i < q.len(),
    ensures
        words2(q.take(i + 1)) == words2(q.take(i)) + le2(q[i]),
{
    let a = words2(q.take(i + 1));
    let c = words2(q.take(i)) + le2(q[i]);
    assert(a.len() == c.len());
    assert forall|j: int| 0 <= j < a.len() implies a[j] == c[j] by {
        if j < 2 * i {
            assert(j / 2 < i);
        } else {
            assert(j / 2 == i);
        }
    }
    assert(a =~= c);
}

proof fn lemma_words4_push(q: Seq<u32>, i: int)
    requires
        0 <= i < q.len(),
    ensures
        words4(q.take(i + 1)) == words4(q.take(i)) + le4(q[i]),
{
    let a = words4(q.take(i + 1));
    let c = words4(q.take(i)) + le4(q[i]);
    assert(a.len() == c.len());
    assert forall|j: int| 0 <= j < a.len() implies a[j] == c[j] by {
        if j < 4 * i {
            assert(j / 4 < i);
        } else {
            assert(j / 4 == i);
        }
    }
    assert(a =~= c);
}

/// Appends the little-endian bytes of every word of `q`.
fn put_words2(out: &mut Vec<u8>, q: &[u16])
    ensures
        final(out)@ == old(out)@ + words2(q@),
{
    let ghost head = out@;
    let mut i: usize = 0;
    while i < q.len()
        invariant
            i <= q@.len(),
            out@ == head + words2(q@.take(i as int)),
        decreases q@.len() - i,
    {
        proof {
            lemma_words2_push(q@, i as int);
        }
        put_u16(out, q[i]);
        i = i + 1;
        assert(out@ =~= head + words2(q@.take(i as int)));
    }
    assert(q@.take(q@.len() as int) =~= q@);
}

/// Appends the little-endian bytes of every word of `q`.
fn put_words4(out: &mut Vec<u8>, q: &[u32])
    ensures
        final(out)@ == old(out)@ + words4(q@),
{
    let ghost head = out@;
    let mut i: usize = 0;
    while i < q.len()
        invariant
            i <= q@.len(),
            out@ == head + words4(q@.take(i as int)),
        decreases q@.len() - i,
    {
        proof {
            lemma_words4_push(q@, i as int);
        }
        put_u32(out, q[i]);
        i = i + 1;
        assert(out@ =~= head + words4(q@.take(i as int)));
    }
    assert(q@.take(q@.len() as int) =~= q@);
}

/// Reads `n` little-endian 16-bit words from `b` starting at `at`.
fn get_words2(b: &[u8], at: usize, n: usize) -> (r: Vec<u16>)
    requires
        at + 2 * n <= b@.len(),
    ensures
        r@ == read_words2(b@, at as int, n as nat),
{
    let mut out: Vec<u16> = Vec::new();
    let mut i: usize = 0;
    while i < n
        invariant
            i <= n,
            at + 2 * n <= b.len(),
            out@ == read_words2(b@, at as int, i as nat),
        decreases n - i,
    {
        let w = get_u16(b, at + 2 * i);
        out.push(w);
        i = i + 1;
        assert(out@ =~= read_words2(b@, at as int, i as nat));
    }
    out
}

/// Reads `n` little-endian 32-bit words from `b` starting at `at`.
fn get_words4(b: &[u8], at: usize, n: usize) -> (r: Vec<u32>)
    requires
        at + 4 * n <= b@.len(),
    ensures
        r@ == read_words4(b@, at as int, n as nat),
{
    let mut out: Vec<u32> = Vec::new();
    let mut i: usize = 0;
    while i < n
        invariant
            i <= n,
            at + 4 * n <= b.len(),
            out@ == read_words4(b@, at as int, i as nat),
        decreases n - i,
    {
        let w = get_u32(b, at + 4 * i);
        out.push(w);
        i = i + 1;
        assert(out@ =~= read_words4(b@, at as int, i as nat));
    }
    out
}

// ---------------------------------------------------------------- spectrum

/// A spectrum payload: the sample count cut to 16 bits, then every sample.
pub open spec fn spec_spectrum_enc(q: Seq<u16>) -> Seq<u8> {
    le2(q.len() as u16) + words2(q)
}

/// The samples of a spectrum payload: as many as its count announces.
pub open spec fn spec_spectrum_dec(b: Seq<u8>) -> Seq<u16> {
    read_words2(b, 2, count_of(b))
}

/// Encodes quantized spectrum samples.
pub fn spectrum_enc(q: &[u16]) -> (b: Vec<u8>)
    ensures
        b@ == spec_spectrum_enc(q@),
{
    let mut b: Vec<u8> = Vec::new();
    put_u16(&mut b, q.len() as u16);
    put_words2(&mut b, q);
    assert(b@ =~= spec_spectrum_enc(q@));
    b
}

/// Decodes a spectrum payload.
pub fn spectrum_dec(b: &[u8]) -> (q: Vec<u16>)
    requires
        b@.len() >= 2,
        b@.len() >= 2 + 2 * count_of(b@),
    ensures
        q@ == spec_spectrum_dec(b@),
{
    let n = get_u16(b, 0);
    assert(b@.subrange(0, 2) =~= b@.take(2));
    assert(from_le2(b@.subrange(0, 2)) == from_le2(b@));
    get_words2(b, 2, n as usize)
}

// ---------------------------------------------------------------- depth

/// A depth-trace payload: the sample count cut to 16 bits, then every sample.
pub open spec fn spec_depth_enc(d: Seq<u32>) -> Seq<u8> {
    le2(d.len() as u16) + words4(d)
}

/// The samples of a depth-trace payload: as many as its count announces.
pub open spec fn spec_depth_dec(b: Seq<u8>) -> Seq<u32> {
    read_words4(b, 2, count_of(b))
}

/// Encodes a depth trace given as the bit patterns of its samples.
pub fn depth_enc(d: &[u32]) -> (b: Vec<u8>)
    ensures
        b@ == spec_depth_enc(d@),
{
    let mut b: Vec<u8> = Vec::new();
    put_u16(&mut b, d.len() as u16);
    put_words4(&mut b, d);
    assert(b@ =~= spec_depth_enc(d@));
    b
}

/// Decodes a depth-trace payload into the bit patterns of its samples.
pub fn depth_dec(b: &[u8]) -> (d: Vec<u32>)
    requires
        b@.len() >= 2,
        b@.len() >= 2 + 4 * count_of(b@),
    ensures
        d@ == spec_depth_dec(b@),
{
    let n = get_u16(b, 0);
    assert(from_le2(b@.subrange(0, 2)) == from_le2(b@));
    get_words4(b, 2, n as usize)
}

// ---------------------------------------------------------------- features

/// Number of values in a feature vector.
pub const N_FEATURES: usize = 8;

/// A features payload: the eight feature words.
pub open spec fn spec_features_enc(f: Seq<u32>) -> Seq<u8> {
    words4(f)
}

/// The eight feature words of a features payload.
pub open spec fn spec_features_dec(b: Seq<u8>) -> Seq<u32> {
    read_words4(b, 0, 8)
}

/// Encodes a feature vector given as the bit patterns of its values.
pub fn features_enc(f: &[u32; 8]) -> (b: Vec<u8>)
    ensures
        b@ == spec_features_enc(f@),
{
    let mut b: Vec<u8> = Vec::new();
    put_words4(&mut b, f.as_slice());
    assert(b@ =~= spec_features_enc(f@));
    b
}

/// Decodes a features payload into the bit patterns of its eight values.
pub fn features_dec(b: &[u8]) -> (f: [u32; 8])
    requires
        b@.len() >= 32,
    ensures
        f@ == spec_features_dec(b@),
{
    let f = [
        get_u32(b, 0),
        get_u32(b, 4),
        get_u32(b, 8),
        get_u32(b, 12),
        get_u32(b, 16),
        get_u32(b, 20),
        get_u32(b, 24),
        get_u32(b, 28),
    ];
    assert(f@ =~= spec_features_dec(b@));
    f
}

// ---------------------------------------------------------------- verdict

/// A verdict payload: the class byte, then the confidence word.
pub open spec fn spec_verdict_enc(class: u8, conf: u32) -> Seq<u8> {
    seq![class] + le4(conf)
}

/// The class byte and confidence word of a verdict payload.
pub open spec fn spec_verdict_dec(b: Seq<u8>) -> (u8, u32) {
    (b[0], from_le4(b.subrange(1, 5)))
}

/// Encodes a classification result: class byte and confidence word.
pub fn verdict_enc(class: u8, conf: u32) -> (b: Vec<u8>)
    ensures
        b@ == spec_verdict_enc(class, conf),
{
    let mut b: Vec<u8> = Vec::new();
    b.push(class);
    put_u32(&mut b, conf);
    assert(b@ =~= spec_verdict_enc(class, conf));
    b
}

/// Decodes a verdict payload.
pub fn verdict_dec(b: &[u8]) -> (r: (u8, u32))
    requires
        b@.len() >= 5,
    ensures
        r == spec_verdict_dec(b@),
{
    (b[0], get_u32(b, 1))
}


// ---------------------------------------------------------------- laws

proof fn lemma_read_words2_of_words2(q: Seq<u16>, pre: Seq<u8>)
    ensures
        read_words2(pre + words2(q), pre.len() as int, q.len()) == q,
{
    let b = pre + words2(q);
    let at = pre.len() as int;
    let r = read_words2(b, at, q.len());
    assert forall|i: int| 0 <= i < q.len() implies r[i] == q[i] by {
        let s = b.subrange(at + 2 * i, at + 2 * i + 2);
        assert(s[0] == words2(q)[2 * i]);
        assert(s[1] == words2(q)[2 * i + 1]);
        assert((2 * i) / 2 == i && (2 * i + 1) / 2 == i);
        assert(s =~= le2(q[i]));
        lemma_le2_roundtrip(q[i]);
    }
    assert(r =~= q);
}

proof fn lemma_words2_of_read_words2(b: Seq<u8>, at: int, n: nat)
    requires
        0 <= at,
        at + 2 * n <= b.len(),
    ensures
        words2(read_words2(b, at, n)) == b.subrange(at, at + 2 * n),
{
    let q = read_words2(b, at, n);
    let w = words2(q);
    let t = b.subrange(at, at + 2 * n);
    assert forall|j: int| 0 <= j < w.len() implies w[j] == t[j] by {
        let i = j / 2;
        let s = b.subrange(at + 2 * i, at + 2 * i + 2);
        lemma_from_le2_roundtrip(s);
        assert(le2(q[i]) == s);
        assert(s[j % 2] == b[at + j]);
    }
    assert(w =~= t);
}

proof fn lemma_read_words4_of_words4(q: Seq<u32>, pre: Seq<u8>)
    ensures
        read_words4(pre + words4(q), pre.len() as int, q.len()) == q,
{
    let b = pre + words4(q);
    let at = pre.len() as int;
    let r = read_words4(b, at, q.len());
    assert forall|i: int| 0 <= i < q.len() implies r[i] == q[i] by {
        let s = b.subrange(at + 4 * i, at + 4 * i + 4);
        assert(s[0] == words4(q)[4 * i]);
        assert(s[1] == words4(q)[4 * i + 1]);
        assert(s[2] == words4(q)[4 * i + 2]);
        assert(s[3] == words4(q)[4 * i + 3]);
        assert((4 * i) / 4 == i && (4 * i + 1) / 4 == i && (4 * i + 2) / 4 == i && (4 * i + 3) / 4
            == i);
        assert(s =~= le4(q[i]));
        lemma_le4_roundtrip(q[i]);
    }
    assert(r =~= q);
}

proof fn lemma_words4_of_read_words4(b: Seq<u8>, at: int, n: nat)
    requires
        0 <= at,
        at + 4 * n <= b.len(),
    ensures
        words4(read_words4(b, at, n)) == b.subrange(at, at + 4 * n),
{
    let q = read_words4(b, at, n);
    let w = words4(q);
    let t = b.subrange(at, at + 4 * n);
    assert forall|j: int| 0 <= j < w.len() implies w[j] == t[j] by {
        let i = j / 4;
        let s = b.subrange(at + 4 * i, at + 4 * i + 4);
        lemma_from_le4_roundtrip(s);
        assert(le4(q[i]) == s);
        assert(s[j % 4] == b[at + j]);
    }
    assert(w =~= t);
}

/// Decoding an encoded spectrum gives its samples back, whenever their count
/// fits the 16-bit count field; the decoder's length demand is then met.
pub proof fn law_spectrum_roundtrip(q: Seq<u16>)
    requires
        q.len() <= u16::MAX,
    ensures
        spec_spectrum_enc(q).len() >= 2 + 2 * count_of(spec_spectrum_enc(q)),
        spec_spectrum_dec(spec_spectrum_enc(q)) == q,
{
    let e = spec_spectrum_enc(q);
    lemma_le2_roundtrip(q.len() as u16);
    assert(count_of(e) == q.len());
    lemma_read_words2_of_words2(q, le2(q.len() as u16));
}

/// Re-encoding a decoded spectrum gives back the bytes it was read from.
pub proof fn law_spectrum_reencode(b: Seq<u8>)
    requires
        b.len() >= 2,
        b.len() >= 2 + 2 * count_of(b),
    ensures
        spec_spectrum_enc(spec_spectrum_dec(b)) == b.take(2 + 2 * (count_of(b) as int)),
{
    let n = count_of(b) as int;
    lemma_words2_of_read_words2(b, 2, n as nat);
    lemma_from_le2_roundtrip(b.take(2));
    assert(le2(n as u16) == b.take(2));
    assert(b.take(2 + 2 * n) =~= b.take(2) + b.subrange(2, 2 + 2 * n));
}

/// Decoding an encoded depth trace gives its samples back, whenever their
/// count fits the 16-bit count field; the decoder's length demand is then met.
pub proof fn law_depth_roundtrip(d: Seq<u32>)
    requires
        d.len() <= u16::MAX,
    ensures
        spec_depth_enc(d).len() >= 2 + 4 * count_of(spec_depth_enc(d)),
        spec_depth_dec(spec_depth_enc(d)) == d,
{
    let e = spec_depth_enc(d);
    lemma_le2_roundtrip(d.len() as u16);
    assert(count_of(e) == d.len());
    lemma_read_words4_of_words4(d, le2(d.len() as u16));
}

/// Re-encoding a decoded depth trace gives back the bytes it was read from.
pub proof fn law_depth_reencode(b: Seq<u8>)
    requires
        b.len() >= 2,
        b.len() >= 2 + 4 * count_of(b),
    ensures
        spec_depth_enc(spec_depth_dec(b)) == b.take(2 + 4 * (count_of(b) as int)),
{
    let n = count_of(b) as int;
    lemma_words4_of_read_words4(b, 2, n as nat);
    lemma_from_le2_roundtrip(b.take(2));
    assert(le2(n as u16) == b.take(2));
    assert(b.take(2 + 4 * n) =~= b.take(2) + b.subrange(2, 2 + 4 * n));
}

/// Decoding an encoded feature vector gives it back.
pub proof fn law_features_roundtrip(f: Seq<u32>)
    requires
        f.len() == 8,
    ensures
        spec_features_enc(f).len() == 32,
        spec_features_dec(spec_features_enc(f)) == f,
{
    lemma_read_words4_of_words4(f, Seq::empty());
    assert(Seq::<u8>::empty() + words4(f) =~= words4(f));
}

/// Re-encoding a decoded feature vector gives back the bytes it was read from.
pub proof fn law_features_reencode(b: Seq<u8>)
    requires
        b.len() >= 32,
    ensures
        spec_features_enc(spec_features_dec(b)) == b.take(32),
{
    lemma_words4_of_read_words4(b, 0, 8);
}

/// Decoding an encoded verdict gives it back.
pub proof fn law_verdict_roundtrip(class: u8, conf: u32)
    ensures
        spec_verdict_enc(class, conf).len() == 5,
        spec_verdict_dec(spec_verdict_enc(class, conf)) == (class, conf),
{
    assert(spec_verdict_enc(class, conf).subrange(1, 5) =~= le4(conf));
    lemma_le4_roundtrip(conf);
}

/// Re-encoding a decoded verdict gives back the bytes it was read from.
pub proof fn law_verdict_reencode(b: Seq<u8>)
    requires
        b.len() >= 5,
    ensures
        spec_verdict_enc(spec_verdict_dec(b).0, spec_verdict_dec(b).1) == b.take(5),
{
    lemma_from_le4_roundtrip(b.subrange(1, 5));
    assert(seq![b[0]] + b.subrange(1, 5) =~= b.take(5));
}


/// Byte `j` of word `i` in `words2(q)` is digit `j` of `q[i]` in base 256.
proof fn lemma_words2_digits(q: Seq<u16>)
    ensures
        forall|i: int, j: int|
            0 <= i < q.len() && 0 <= j < 2 ==> words2(q)[2 * i + j] == (q[i] as int / pow256(j))
                % 256,
{
    assert forall|i: int, j: int| 0 <= i < q.len() && 0 <= j < 2 implies words2(q)[2 * i + j] == (
    q[i] as int / pow256(j)) % 256 by {
        assert((2 * i + j) / 2 == i && (2 * i + j) % 2 == j);
        lemma_le2_digits(q[i]);
    }
}

/// Byte `j` of word `i` in `words4(q)` is digit `j` of `q[i]` in base 256.
proof fn lemma_words4_digits(q: Seq<u32>)
    ensures
        forall|i: int, j: int|
            0 <= i < q.len() && 0 <= j < 4 ==> words4(q)[4 * i + j] == (q[i] as int / pow256(j))
                % 256,
{
    assert forall|i: int, j: int| 0 <= i < q.len() && 0 <= j < 4 implies words4(q)[4 * i + j] == (
    q[i] as int / pow256(j)) % 256 by {
        assert((4 * i + j) / 4 == i && (4 * i + j) % 4 == j);
        lemma_le4_digits(q[i]);
    }
}

/// The spectrum payload layout: the sample count (when it fits 16 bits) as
/// two little-endian bytes, then sample `i` as two little-endian bytes at
/// offset `2 + 2i`, in sample order.
pub proof fn law_spectrum_layout(q: Seq<u16>)
    ensures
        spec_spectrum_enc(q).len() == 2 + 2 * q.len(),
        q.len() <= u16::MAX ==> spec_spectrum_enc(q)[0] + 0x100 * spec_spectrum_enc(q)[1]
            == q.len(),
        forall|i: int, j: int|
            0 <= i < q.len() && 0 <= j < 2 ==> spec_spectrum_enc(q)[2 + 2 * i + j] == (
            q[i] as int / pow256(j)) % 256,
{
    let e = spec_spectrum_enc(q);
    lemma_words2_digits(q);
    if q.len() <= u16::MAX {
        lemma_le2_roundtrip(q.len() as u16);
        lemma_from_le2_value(le2(q.len() as u16));
    }
}

/// Decoding a spectrum payload reads the count from bytes 0 and 1 and sample
/// `i` from bytes `2 + 2i` and `3 + 2i`, low byte first.
pub proof fn law_spectrum_decode_layout(b: Seq<u8>)
    requires
        b.len() >= 2,
        b.len() >= 2 + 2 * count_of(b),
    ensures
        count_of(b) == b[0] + 0x100 * b[1],
        spec_spectrum_dec(b).len() == count_of(b),
        forall|i: int|
            0 <= i < count_of(b) ==> spec_spectrum_dec(b)[i] == b[2 + 2 * i] + 0x100 * b[3 + 2
                * i],
{
    lemma_from_le2_value(b);
    assert forall|i: int| 0 <= i < count_of(b) implies spec_spectrum_dec(b)[i] == b[2 + 2 * i]
        + 0x100 * b[3 + 2 * i] by {
        lemma_from_le2_value(b.subrange(2 + 2 * i, 2 + 2 * i + 2));
    }
}

/// The depth-trace payload layout: the sample count (when it fits 16 bits) as
/// two little-endian bytes, then sample `i` as four little-endian bytes at
/// offset `2 + 4i`, in sample order.
pub proof fn law_depth_layout(d: Seq<u32>)
    ensures
        spec_depth_enc(d).len() == 2 + 4 * d.len(),
        d.len() <= u16::MAX ==> spec_depth_enc(d)[0] + 0x100 * spec_depth_enc(d)[1] == d.len(),
        forall|i: int, j: int|
            0 <= i < d.len() && 0 <= j < 4 ==> spec_depth_enc(d)[2 + 4 * i + j] == (d[i] as int
                / pow256(j)) % 256,
{
    let e = spec_depth_enc(d);
    lemma_words4_digits(d);
    if d.len() <= u16::MAX {
        lemma_le2_roundtrip(d.len() as u16);
        lemma_from_le2_value(le2(d.len() as u16));
    }
}

/// Decoding a depth-trace payload reads the count from bytes 0 and 1 and
/// sample `i` from bytes `2 + 4i .. 6 + 4i`, low byte first.
pub proof fn law_depth_decode_layout(b: Seq<u8>)
    requires
        b.len() >= 2,
        b.len() >= 2 + 4 * count_of(b),
    ensures
        count_of(b) == b[0] + 0x100 * b[1],
        spec_depth_dec(b).len() == count_of(b),
        forall|i: int|
            0 <= i < count_of(b) ==> spec_depth_dec(b)[i] == b[2 + 4 * i] + 0x100 * b[3 + 4 * i]
                + 0x1_0000 * b[4 + 4 * i] + 0x100_0000 * b[5 + 4 * i],
{
    lemma_from_le2_value(b);
    assert forall|i: int| 0 <= i < count_of(b) implies spec_depth_dec(b)[i] == b[2 + 4 * i]
        + 0x100 * b[3 + 4 * i] + 0x1_0000 * b[4 + 4 * i] + 0x100_0000 * b[5 + 4 * i] by {
        lemma_from_le4_value(b.subrange(2 + 4 * i, 2 + 4 * i + 4));
    }
}

/// The features payload layout: 32 bytes, value `i` as four little-endian
/// bytes at offset `4i`, in feature order (the mean first).
pub proof fn law_features_layout(f: Seq<u32>)
    requires
        f.len() == 8,
    ensures
        spec_features_enc(f).len() == 32,
        forall|i: int, j: int|
            0 <= i < 8 && 0 <= j < 4 ==> spec_features_enc(f)[4 * i + j] == (f[i] as int / pow256(
                j,
            )) % 256,
{
    lemma_words4_digits(f);
}

/// Decoding a features payload reads value `i` from bytes `4i .. 4i + 4`, low
/// byte first.
pub proof fn law_features_decode_layout(b: Seq<u8>)
    requires
        b.len() >= 32,
    ensures
        spec_features_dec(b).len() == 8,
        forall|i: int|
            0 <= i < 8 ==> spec_features_dec(b)[i] == b[4 * i] + 0x100 * b[4 * i + 1] + 0x1_0000
                * b[4 * i + 2] + 0x100_0000 * b[4 * i + 3],
{
    assert forall|i: int| 0 <= i < 8 implies spec_features_dec(b)[i] == b[4 * i] + 0x100 * b[4 * i
        + 1] + 0x1_0000 * b[4 * i + 2] + 0x100_0000 * b[4 * i + 3] by {
        lemma_from_le4_value(b.subrange(4 * i, 4 * i + 4));
    }
}

/// The verdict payload layout: the class byte, then the confidence word as
/// four little-endian bytes.
pub proof fn law_verdict_layout(class: u8, conf: u32, b: Seq<u8>)
    ensures
        spec_verdict_enc(class, conf).len() == 5,
        spec_verdict_enc(class, conf)[0] == class,
        forall|j: int|
            0 <= j < 4 ==> spec_verdict_enc(class, conf)[1 + j] == (conf as int / pow256(j)) % 256,
        b.len() >= 5 ==> spec_verdict_dec(b).0 == b[0] && spec_verdict_dec(b).1 == b[1] + 0x100
            * b[2] + 0x1_0000 * b[3] + 0x100_0000 * b[4],
{
    lemma_le4_digits(conf);
    if b.len() >= 5 {
        lemma_from_le4_value(b.subrange(1, 5));
    }
}

} // verus!
