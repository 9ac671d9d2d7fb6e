//! Integer logic of the keyhole simulator: the defect kinds, their labels,
//! and the per-frame hash that drives the spatter jitter.

use vstd::prelude::*;

verus! {

/// A weld defect that the simulator can seed into a time window.
#[derive(Clone, Copy, Debug, PartialEq, Eq, Structural)]
pub enum Defect {
    NoDefect,
    Spatter,
    Pore,
    Incomplete,
    Humping,
}

/// The quality label of a defect kind; `NoDefect` is a good weld, `"ok"`.
pub open spec fn spec_defect_label(d: Defect) -> Seq<char> {
    match d {
        Defect::NoDefect => "ok"@,
        Defect::Spatter => "spatter"@,
        Defect::Pore => "pore"@,
        Defect::Incomplete => "incomplete"@,
        Defect::Humping => "humping"@,
    }
}

/// The quality label of a defect kind, as the classifier names its classes.
pub fn defect_label(d: Defect) -> (s: &'static str)
    ensures
        s@ == spec_defect_label(d),
{
    match d {
        Defect::NoDefect => "ok",
        Defect::Spatter => "spatter",
        Defect::Pore => "pore",
        Defect::Incomplete => "incomplete",
        Defect::Humping => "humping",
    }
}

/// The denominator that scales a frame hash to the frame's value
/// `hash / HASH_DENOM`, which lies in `[0, 1)`.
pub const HASH_DENOM: u16 = 0x8000;

/// The 15-bit hash of frame `k`: bits 16..31 of `k * 2654435761 + 40503`
/// taken modulo 2^64, with bit 31 dropped.
pub open spec fn spec_frame_hash(k: u64) -> int {
    (((k * 2654435761int + 40503) % 0x1_0000_0000_0000_0000int) / 0x10000) % 0x8000
}

/// The 15-bit hash of frame `k`, the numerator of the frame's value
/// `hash / HASH_DENOM` in `[0, 1)`.
pub fn frame_hash(k: u64) -> (h: u16)
    ensures
        h == spec_frame_hash(k),
        h < HASH_DENOM,
{
    let s = k.wrapping_mul(2_654_435_761).wrapping_add(40_503);
    let h = (s >> 16) & 0x7fff;
    assert(h == (s as int / 0x10000) % 0x8000) by (bit_vector)
        requires
            h == (s >> 16) & 0x7fff,
    ;
    assert(s == (k * 2654435761int + 40503) % 0x1_0000_0000_0000_0000int) by {
        let m = k.wrapping_mul(2_654_435_761);
        assert(m == (k * 2654435761int) % 0x1_0000_0000_0000_0000int);
        vstd::arithmetic::div_mod::lemma_add_mod_noop(
            k * 2654435761int,
            40503,
            0x1_0000_0000_0000_0000int,
        );
        vstd::arithmetic::div_mod::lemma_small_mod(40503nat, 0x1_0000_0000_0000_0000nat);
    }
    h as u16
}

} // verus!
