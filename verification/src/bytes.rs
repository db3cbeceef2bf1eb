use vstd::prelude::*;

use byteorder::{ByteOrder, LittleEndian};

verus! {

/// The number written little-endian in the first `n` bytes of `b`.
pub open spec fn le_value(b: Seq<u8>, n: nat) -> nat
    decreases n,
{
    if n == 0 {
        0
    } else {
        le_value(b, (n - 1) as nat) + b[n - 1] as nat * pow256((n - 1) as nat)
    }
}

/// 256 to the power `n`.
pub open spec fn pow256(n: nat) -> nat
    decreases n,
{
    if n == 0 {
        1
    } else {
        256 * pow256((n - 1) as nat)
    }
}

/// The unsigned 16-bit number in the first two bytes of `b`, little-endian.
pub open spec fn le_u16(b: Seq<u8>) -> u16 {
    (b[0] as int + 256 * b[1] as int) as u16
}

/// The unsigned 32-bit number in the first four bytes of `b`, little-endian.
pub open spec fn le_u32(b: Seq<u8>) -> u32 {
    le_value(b, 4) as u32
}

/// The unsigned 64-bit number in the first eight bytes of `b`, little-endian.
pub open spec fn le_u64(b: Seq<u8>) -> u64 {
    le_value(b, 8) as u64
}

/// The signed 64-bit number in the first eight bytes of `b`, little-endian,
/// two's complement.
pub open spec fn le_i64(b: Seq<u8>) -> i64 {
    le_u64(b) as i64
}

/// `byteorder::LittleEndian::read_u16`: the first two bytes as a little-endian number.
#[verifier::external_body]
pub(crate) fn read_u16(buf: &[u8]) -> (r: u16)
    requires
        buf@.len() >= 2,
    ensures
        r == le_u16(buf@),
{
    LittleEndian::read_u16(buf)
}

/// `byteorder::LittleEndian::read_u32`: the first four bytes as a little-endian number.
#[verifier::external_body]
pub(crate) fn read_u32(buf: &[u8]) -> (r: u32)
    requires
        buf@.len() >= 4,
    ensures
        r == le_u32(buf@),
{
    LittleEndian::read_u32(buf)
}

/// `byteorder::LittleEndian::read_u64`: the first eight bytes as a little-endian number.
#[verifier::external_body]
pub(crate) fn read_u64(buf: &[u8]) -> (r: u64)
    requires
        buf@.len() >= 8,
    ensures
        r == le_u64(buf@),
{
    LittleEndian::read_u64(buf)
}

/// `byteorder::LittleEndian::read_i64`: the first eight bytes as a little-endian
/// two's-complement number.
#[verifier::external_body]
pub(crate) fn read_i64(buf: &[u8]) -> (r: i64)
    requires
        buf@.len() >= 8,
    ensures
        r == le_i64(buf@),
{
    LittleEndian::read_i64(buf)
}

} // verus!
