//! Little-endian integer encodings used by the `WS01` wire format.

use vstd::prelude::*;

verus! {

/// The two little-endian bytes of `x`.
pub open spec fn le2(x: u16) -> Seq<u8> {
    seq![(x & 0xff) as u8, ((x >> 8) & 0xff) as u8]
}

/// The four little-endian bytes of `x`.
pub open spec fn le4(x: u32) -> Seq<u8> {
    seq![
        (x & 0xff) as u8,
        ((x >> 8) & 0xff) as u8,
        ((x >> 16) & 0xff) as u8,
        ((x >> 24) & 0xff) as u8,
    ]
}

/// The eight little-endian bytes of `x`.
pub open spec fn le8(x: u64) -> Seq<u8> {
    seq![
        (x & 0xff) as u8,
        ((x >> 8) & 0xff) as u8,
        ((x >> 16) & 0xff) as u8,
        ((x >> 24) & 0xff) as u8,
        ((x >> 32) & 0xff) as u8,
        ((x >> 40) & 0xff) as u8,
        ((x >> 48) & 0xff) as u8,
        ((x >> 56) & 0xff) as u8,
    ]
}

/// The `u16` whose little-endian bytes are `s[0], s[1]`.
pub open spec fn from_le2(s: Seq<u8>) -> u16 {
    (s[0] as u16) | ((s[1] as u16) << 8)
}

/// The `u32` whose little-endian bytes are `s[0..4]`.
pub open spec fn from_le4(s: Seq<u8>) -> u32 {
    (s[0] as u32) | ((s[1] as u32) << 8) | ((s[2] as u32) << 16) | ((s[3] as u32) << 24)
}

/// The `u64` whose little-endian bytes are `s[0..8]`.
pub open spec fn from_le8(s: Seq<u8>) -> u64 {
    (s[0] as u64) | ((s[1] as u64) << 8) | ((s[2] as u64) << 16) | ((s[3] as u64) << 24) | ((
    s[4] as u64) << 32) | ((s[5] as u64) << 40) | ((s[6] as u64) << 48) | ((s[7] as u64) << 56)
}

pub proof fn lemma_le2_roundtrip(x: u16)
    ensures
        from_le2(le2(x)) == x,
{
    assert((x & 0xff) < 256 && ((x >> 8) & 0xff) < 256) by (bit_vector);
    assert(x == ((x & 0xff) | (((x >> 8) & 0xff) << 8))) by (bit_vector);
}

pub proof fn lemma_from_le2_roundtrip(s: Seq<u8>)
    requires
        s.len() == 2,
    ensures
        le2(from_le2(s)) == s,
{
    let b0 = s[0] as u16;
    let b1 = s[1] as u16;
    let x = from_le2(s);
    assert((x == (b0 | (b1 << 8)) && b0 < 256 && b1 < 256) ==> (b0 == (x & 0xff) && b1 == ((x
        >> 8) & 0xff))) by (bit_vector);
    assert(le2(x) =~= s);
}

pub proof fn lemma_le4_roundtrip(x: u32)
    ensures
        from_le4(le4(x)) == x,
{
    assert((x & 0xff) < 256 && ((x >> 8) & 0xff) < 256 && ((x >> 16) & 0xff) < 256 && ((x >> 24)
        & 0xff) < 256) by (bit_vector);
    assert(x == ((x & 0xff) | (((x >> 8) & 0xff) << 8) | (((x >> 16) & 0xff) << 16) | (((x >> 24)
        & 0xff) << 24))) by (bit_vector);
}

pub proof fn lemma_from_le4_roundtrip(s: Seq<u8>)
    requires
        s.len() == 4,
    ensures
        le4(from_le4(s)) == s,
{
    let b0 = s[0] as u32;
    let b1 = s[1] as u32;
    let b2 = s[2] as u32;
    let b3 = s[3] as u32;
    let x = from_le4(s);
    assert((x == (b0 | (b1 << 8) | (b2 << 16) | (b3 << 24)) && b0 < 256 && b1 < 256 && b2 < 256
        && b3 < 256) ==> (b0 == (x & 0xff) && b1 == ((x >> 8) & 0xff) && b2 == ((x >> 16) & 0xff)
        && b3 == ((x >> 24) & 0xff))) by (bit_vector);
    assert(le4(x) =~= s);
}

pub proof fn lemma_le8_roundtrip(x: u64)
    ensures
        from_le8(le8(x)) == x,
{
    assert((x & 0xff) < 256 && ((x >> 8) & 0xff) < 256 && ((x >> 16) & 0xff) < 256 && ((x >> 24)
        & 0xff) < 256 && ((x >> 32) & 0xff) < 256 && ((x >> 40) & 0xff) < 256 && ((x >> 48) & 0xff)
        < 256 && ((x >> 56) & 0xff) < 256) by (bit_vector);
    assert(x == ((x & 0xff) | (((x >> 8) & 0xff) << 8) | (((x >> 16) & 0xff) << 16) | (((x >> 24)
        & 0xff) << 24) | (((x >> 32) & 0xff) << 32) | (((x >> 40) & 0xff) << 40) | (((x >> 48)
        & 0xff) << 48) | (((x >> 56) & 0xff) << 56))) by (bit_vector);
}

pub proof fn lemma_from_le8_roundtrip(s: Seq<u8>)
    requires
        s.len() == 8,
    ensures
        le8(from_le8(s)) == s,
{
    let b0 = s[0] as u64;
    let b1 = s[1] as u64;
    let b2 = s[2] as u64;
    let b3 = s[3] as u64;
    let b4 = s[4] as u64;
    let b5 = s[5] as u64;
    let b6 = s[6] as u64;
    let b7 = s[7] as u64;
    let x = from_le8(s);
    assert((x == (b0 | (b1 << 8) | (b2 << 16) | (b3 << 24) | (b4 << 32) | (b5 << 40) | (b6 << 48)
        | (b7 << 56)) && b0 < 256 && b1 < 256 && b2 < 256 && b3 < 256 && b4 < 256 && b5 < 256 && b6
        < 256 && b7 < 256) ==> (b0 == (x & 0xff) && b1 == ((x >> 8) & 0xff) && b2 == ((x >> 16)
        & 0xff) && b3 == ((x >> 24) & 0xff) && b4 == ((x >> 32) & 0xff) && b5 == ((x >> 40) & 0xff)
        && b6 == ((x >> 48) & 0xff) && b7 == ((x >> 56) & 0xff))) by (bit_vector);
    assert(le8(x) =~= s);
}

/// `256^i`, the weight of byte `i` in a little-endian number.
pub open spec fn pow256(i: int) -> int
    decreases i,
{
    if i <= 0 {
        1
    } else {
        256 * pow256(i - 1)
    }
}

proof fn lemma_pow256_values()
    ensures
        pow256(0) == 1,
        pow256(1) == 0x100,
        pow256(2) == 0x1_0000,
        pow256(3) == 0x100_0000,
        pow256(4) == 0x1_0000_0000,
        pow256(5) == 0x100_0000_0000,
        pow256(6) == 0x1_0000_0000_0000,
        pow256(7) == 0x100_0000_0000_0000,
{
    reveal_with_fuel(pow256, 8);
}

/// Byte `i` of `le2(x)` is digit `i` of `x` in base 256.
pub proof fn lemma_le2_digits(x: u16)
    ensures
        le2(x).len() == 2,
        forall|i: int| 0 <= i < 2 ==> le2(x)[i] == (x as int / pow256(i)) % 256,
{
    lemma_pow256_values();
    assert((x & 0xff) == x % 256 && ((x >> 8) & 0xff) == (x / 256) % 256) by (bit_vector);
}

/// Byte `i` of `le4(x)` is digit `i` of `x` in base 256.
pub proof fn lemma_le4_digits(x: u32)
    ensures
        le4(x).len() == 4,
        forall|i: int| 0 <= i < 4 ==> le4(x)[i] == (x as int / pow256(i)) % 256,
{
    lemma_pow256_values();
    assert((x & 0xff) == x % 256 && ((x >> 8) & 0xff) == (x / 0x100) % 256 && ((x >> 16) & 0xff)
        == (x / 0x1_0000) % 256 && ((x >> 24) & 0xff) == (x / 0x100_0000) % 256) by (bit_vector);
}

/// Byte `i` of `le8(x)` is digit `i` of `x` in base 256.
pub proof fn lemma_le8_digits(x: u64)
    ensures
        le8(x).len() == 8,
        forall|i: int| 0 <= i < 8 ==> le8(x)[i] == (x as int / pow256(i)) % 256,
{
    lemma_pow256_values();
    assert((x & 0xff) == x % 256 && ((x >> 8) & 0xff) == (x / 0x100) % 256 && ((x >> 16) & 0xff)
        == (x / 0x1_0000) % 256 && ((x >> 24) & 0xff) == (x / 0x100_0000) % 256 && ((x >> 32)
        & 0xff) == (x / 0x1_0000_0000) % 256 && ((x >> 40) & 0xff) == (x / 0x100_0000_0000) % 256
        && ((x >> 48) & 0xff) == (x / 0x1_0000_0000_0000) % 256 && ((x >> 56) & 0xff) == (x
        / 0x100_0000_0000_0000) % 256) by (bit_vector);
}

/// `from_le2` reads two bytes as a base-256 number, low byte first.
pub proof fn lemma_from_le2_value(s: Seq<u8>)
    requires
        s.len() >= 2,
    ensures
        from_le2(s) == s[0] + 0x100 * s[1],
{
    let b0 = s[0] as u16;
    let b1 = s[1] as u16;
    assert(b0 < 256 && b1 < 256 ==> (b0 | (b1 << 8)) == b0 + b1 * 0x100) by (bit_vector);
}

/// `from_le4` reads four bytes as a base-256 number, low byte first.
pub proof fn lemma_from_le4_value(s: Seq<u8>)
    requires
        s.len() >= 4,
    ensures
        from_le4(s) == s[0] + 0x100 * s[1] + 0x1_0000 * s[2] + 0x100_0000 * s[3],
{
    let b0 = s[0] as u32;
    let b1 = s[1] as u32;
    let b2 = s[2] as u32;
    let b3 = s[3] as u32;
    assert(b0 < 256 && b1 < 256 && b2 < 256 && b3 < 256 ==> (b0 | (b1 << 8) | (b2 << 16) | (b3
        << 24)) == b0 + b1 * 0x100 + b2 * 0x1_0000 + b3 * 0x100_0000) by (bit_vector);
}

/// `from_le8` reads eight bytes as a base-256 number, low byte first.
pub proof fn lemma_from_le8_value(s: Seq<u8>)
    requires
        s.len() >= 8,
    ensures
        from_le8(s) == s[0] + 0x100 * s[1] + 0x1_0000 * s[2] + 0x100_0000 * s[3] + 0x1_0000_0000
            * s[4] + 0x100_0000_0000 * s[5] + 0x1_0000_0000_0000 * s[6] + 0x100_0000_0000_0000
            * s[7],
{
    let b0 = s[0] as u64;
    let b1 = s[1] as u64;
    let b2 = s[2] as u64;
    let b3 = s[3] as u64;
    let b4 = s[4] as u64;
    let b5 = s[5] as u64;
    let b6 = s[6] as u64;
    let b7 = s[7] as u64;
    assert(b0 < 256 && b1 < 256 && b2 < 256 && b3 < 256 && b4 < 256 && b5 < 256 && b6 < 256 && b7
        < 256 ==> (b0 | (b1 << 8) | (b2 << 16) | (b3 << 24) | (b4 << 32) | (b5 << 40) | (b6 << 48)
        | (b7 << 56)) == b0 + b1 * 0x100 + b2 * 0x1_0000 + b3 * 0x100_0000 + b4 * 0x1_0000_0000
        + b5 * 0x100_0000_0000 + b6 * 0x1_0000_0000_0000 + b7 * 0x100_0000_0000_0000)
        by (bit_vector);
}

/// Appends the little-endian bytes of `x`.
pub fn put_u16(out: &mut Vec<u8>, x: u16)
    ensures
        final(out)@ == old(out)@ + le2(x),
{
    out.push((x & 0xff) as u8);
    out.push(((x >> 8) & 0xff) as u8);
    assert(final(out)@ =~= old(out)@ + le2(x));
}

/// Appends the little-endian bytes of `x`.
pub fn put_u32(out: &mut Vec<u8>, x: u32)
    ensures
        final(out)@ == old(out)@ + le4(x),
{
    out.push((x & 0xff) as u8);
    out.push(((x >> 8) & 0xff) as u8);
    out.push(((x >> 16) & 0xff) as u8);
    out.push(((x >> 24) & 0xff) as u8);
    assert(final(out)@ =~= old(out)@ + le4(x));
}

/// Appends the little-endian bytes of `x`.
pub fn put_u64(out: &mut Vec<u8>, x: u64)
    ensures
        final(out)@ == old(out)@ + le8(x),
{
    out.push((x & 0xff) as u8);
    out.push(((x >> 8) & 0xff) as u8);
    out.push(((x >> 16) & 0xff) as u8);
    out.push(((x >> 24) & 0xff) as u8);
    out.push(((x >> 32) & 0xff) as u8);
    out.push(((x >> 40) & 0xff) as u8);
    out.push(((x >> 48) & 0xff) as u8);
    out.push(((x >> 56) & 0xff) as u8);
    assert(final(out)@ =~= old(out)@ + le8(x));
}

/// Reads the little-endian `u16` at `b[at..at + 2]`.
pub fn get_u16(b: &[u8], at: usize) -> (r: u16)
    requires
        at + 2 <= b@.len(),
    ensures
        r == from_le2(b@.subrange(at as int, at + 2)),
{
    (b[at] as u16) | ((b[at + 1] as u16) << 8)
}

/// Reads the little-endian `u32` at `b[at..at + 4]`.
pub fn get_u32(b: &[u8], at: usize) -> (r: u32)
    requires
        at + 4 <= b@.len(),
    ensures
        r == from_le4(b@.subrange(at as int, at + 4)),
{
    (b[at] as u32) | ((b[at + 1] as u32) << 8) | ((b[at + 2] as u32) << 16) | ((b[at + 3] as u32)
        << 24)
}

/// Reads the little-endian `u64` at `b[at..at + 8]`.
pub fn get_u64(b: &[u8], at: usize) -> (r: u64)
    requires
        at + 8 <= b@.len(),
    ensures
        r == from_le8(b@.subrange(at as int, at + 8)),
{
    (b[at] as u64) | ((b[at + 1] as u64) << 8) | ((b[at + 2] as u64) << 16) | ((b[at + 3] as u64)
        << 24) | ((b[at + 4] as u64) << 32) | ((b[at + 5] as u64) << 40) | ((b[at + 6] as u64)
        << 48) | ((b[at + 7] as u64) << 56)
}

} // verus!
