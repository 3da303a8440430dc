//! Little-endian unsigned integers, read through `byteorder`.

use vstd::prelude::*;
use byteorder::{ByteOrder, LittleEndian};

verus! {

/// The unsigned integer that the bytes `s` encode, least significant first.
pub open spec fn le_value(s: Seq<u8>) -> nat
    decreases s.len(),
{
    if s.len() == 0 {
        0
    } else {
        s[0] as nat + 256 * le_value(s.drop_first())
    }
}

/// The `width` bytes that encode `v` least significant first
/// (the high part of `v` that does not fit is dropped).
pub open spec fn le_bytes(v: nat, width: nat) -> Seq<u8>
    decreases width,
{
    if width == 0 {
        Seq::empty()
    } else {
        seq![(v % 256) as u8].add(le_bytes(v / 256, (width - 1) as nat))
    }
}

pub proof fn lemma_le_bytes_len(v: nat, width: nat)
    ensures
        le_bytes(v, width).len() == width,
    decreases width,
{
    if width > 0 {
        lemma_le_bytes_len(v / 256, (width - 1) as nat);
    }
}

/// Encoding a value that fits in `width` bytes and reading it back gives the value.
pub proof fn lemma_le_round_trip(v: nat, width: nat)
    requires
        v < pow256(width),
    ensures
        le_value(le_bytes(v, width)) == v,
        le_bytes(v, width).len() == width,
    decreases width,
{
    lemma_le_bytes_len(v, width);
    if width > 0 {
        let w1 = (width - 1) as nat;
        assert(v / 256 < pow256(w1)) by (nonlinear_arith)
            requires
                v < 256 * pow256(w1),
        ;
        lemma_le_round_trip(v / 256, w1);
        let s = le_bytes(v, width);
        assert(s.drop_first() =~= le_bytes(v / 256, w1));
        assert(s[0] as nat == v % 256);
    }
}

/// `256` to the power `width`.
pub open spec fn pow256(width: nat) -> nat
    decreases width,
{
    if width == 0 {
        1
    } else {
        256 * pow256((width - 1) as nat)
    }
}

/// The ranges of two, four and eight bytes.
pub proof fn lemma_pow256_widths()
    ensures
        pow256(2) == 0x1_0000,
        pow256(4) == 0x1_0000_0000,
        pow256(8) == 0x1_0000_0000_0000_0000,
{
    reveal_with_fuel(pow256, 9);
}

/// Relies on `byteorder::LittleEndian::read_u16`: the first two bytes of `b`,
/// least significant first. It panics on fewer than two bytes.
#[verifier::external_body]
pub(crate) fn read_le_u16(b: &[u8]) -> (r: u16)
    requires
        b@.len() >= 2,
    ensures
        r as nat == le_value(b@.subrange(0, 2)),
{
    LittleEndian::read_u16(b)
}

/// Relies on `byteorder::LittleEndian::read_u32`: the first four bytes of `b`,
/// least significant first. It panics on fewer than four bytes.
#[verifier::external_body]
pub(crate) fn read_le_u32(b: &[u8]) -> (r: u32)
    requires
        b@.len() >= 4,
    ensures
        r as nat == le_value(b@.subrange(0, 4)),
{
    LittleEndian::read_u32(b)
}

/// Relies on `byteorder::LittleEndian::read_u64`: the first eight bytes of `b`,
/// least significant first. It panics on fewer than eight bytes.
#[verifier::external_body]
pub(crate) fn read_le_u64(b: &[u8]) -> (r: u64)
    requires
        b@.len() >= 8,
    ensures
        r as nat == le_value(b@.subrange(0, 8)),
{
    LittleEndian::read_u64(b)
}

} // verus!
