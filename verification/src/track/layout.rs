//! Little-endian building blocks of the on-disk records.
//!
//! Every record is a run of fixed-width fields, least significant byte
//! first. Signed fields are stored in two's complement.

use vstd::bytes::*;
use vstd::prelude::*;
use vstd::slice::*;

verus! {

/// The two's complement of a signed 64-bit value.
pub open spec fn unsigned64(x: i64) -> u64 {
    if x >= 0 {
        x as u64
    } else {
        (x + 0x1_0000_0000_0000_0000) as u64
    }
}

/// The signed value whose two's complement is `x`.
pub open spec fn signed64(x: u64) -> i64 {
    if x < 0x8000_0000_0000_0000 {
        x as i64
    } else {
        (x - 0x1_0000_0000_0000_0000) as i64
    }
}

/// The two's complement of a signed 32-bit value.
pub open spec fn unsigned32(x: i32) -> u32 {
    if x >= 0 {
        x as u32
    } else {
        (x + 0x1_0000_0000) as u32
    }
}

/// The signed value whose two's complement is `x`.
pub open spec fn signed32(x: u32) -> i32 {
    if x < 0x8000_0000 {
        x as i32
    } else {
        (x - 0x1_0000_0000) as i32
    }
}

/// `bytes` cut or filled with zeros to exactly `len` bytes.
pub open spec fn padded(bytes: Seq<u8>, len: nat) -> Seq<u8> {
    Seq::new(
        len,
        |i: int|
            if i < bytes.len() {
                bytes[i]
            } else {
                0u8
            },
    )
}

/// The 64-bit field stored at `at`.
pub open spec fn u64_at(bytes: Seq<u8>, at: int) -> u64 {
    spec_u64_from_le_bytes(bytes.subrange(at, at + 8))
}

/// The 32-bit field stored at `at`.
pub open spec fn u32_at(bytes: Seq<u8>, at: int) -> u32 {
    spec_u32_from_le_bytes(bytes.subrange(at, at + 4))
}

pub fn to_unsigned64(x: i64) -> (r: u64)
    ensures
        r == unsigned64(x),
{
    if x >= 0 {
        x as u64
    } else {
        let low: i64 = x - i64::MIN;
        (low as u64) + 0x8000_0000_0000_0000u64
    }
}

pub fn to_signed64(x: u64) -> (r: i64)
    ensures
        r == signed64(x),
{
    if x < 0x8000_0000_0000_0000u64 {
        x as i64
    } else {
        let low: u64 = x - 0x8000_0000_0000_0000u64;
        (low as i64) + i64::MIN
    }
}

pub fn to_unsigned32(x: i32) -> (r: u32)
    ensures
        r == unsigned32(x),
{
    if x >= 0 {
        x as u32
    } else {
        let low: i32 = x - i32::MIN;
        (low as u32) + 0x8000_0000u32
    }
}

pub fn to_signed32(x: u32) -> (r: i32)
    ensures
        r == signed32(x),
{
    if x < 0x8000_0000u32 {
        x as i32
    } else {
        let low: u32 = x - 0x8000_0000u32;
        (low as i32) + i32::MIN
    }
}

/// Two's complement loses nothing, in either direction.
pub proof fn lemma_twos_complement(x: i64, y: i32, u: u64, v: u32)
    ensures
        signed64(unsigned64(x)) == x,
        signed32(unsigned32(y)) == y,
        unsigned64(signed64(u)) == u,
        unsigned32(signed32(v)) == v,
{
}

/// Appends the eight bytes of `x` to `out`.
pub fn put_u64(out: &mut Vec<u8>, x: u64)
    ensures
        final(out)@ == old(out)@ + spec_u64_to_le_bytes(x),
        final(out)@.len() == old(out)@.len() + 8,
{
    let mut bytes = u64_to_le_bytes(x);
    out.append(&mut bytes);
}

/// Appends the four bytes of `x` to `out`.
pub fn put_u32(out: &mut Vec<u8>, x: u32)
    ensures
        final(out)@ == old(out)@ + spec_u32_to_le_bytes(x),
        final(out)@.len() == old(out)@.len() + 4,
{
    let mut bytes = u32_to_le_bytes(x);
    out.append(&mut bytes);
}

/// Copies `data`, cut or filled with zeros to exactly `len` bytes.
pub fn pad(data: &[u8], len: usize) -> (out: Vec<u8>)
    ensures
        out@ == padded(data@, len as nat),
{
    let mut out: Vec<u8> = Vec::new();
    let mut i: usize = 0;
    while i < len
        invariant
            i <= len,
            out@ == padded(data@, i as nat),
        decreases len - i,
    {
        let byte: u8 = if i < data.len() {
            data[i]
        } else {
            0u8
        };
        out.push(byte);
        assert(out@ =~= padded(data@, (i + 1) as nat));
        i = i + 1;
    }
    out
}

/// Reads the 64-bit field at `at`.
pub fn get_u64(bytes: &[u8], at: usize) -> (x: u64)
    requires
        at + 8 <= bytes@.len(),
    ensures
        x == u64_at(bytes@, at as int),
{
    proof {
        axiom_spec_len(bytes);
    }
    u64_from_le_bytes(slice_subrange(bytes, at, at + 8))
}

/// Reads the 32-bit field at `at`.
pub fn get_u32(bytes: &[u8], at: usize) -> (x: u32)
    requires
        at + 4 <= bytes@.len(),
    ensures
        x == u32_at(bytes@, at as int),
{
    proof {
        axiom_spec_len(bytes);
    }
    u32_from_le_bytes(slice_subrange(bytes, at, at + 4))
}

} // verus!
