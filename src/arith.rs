//! Two's-complement helpers for the interpreter: sign extension, signed
//! views of register values, and wrapping arithmetic, each stated over
//! mathematical integers.

use vstd::prelude::*;

verus! {

/// The 32-bit value whose bits are those of `x` modulo 2^32.
pub open spec fn wrap32(x: int) -> u32 {
    (x % 0x1_0000_0000) as u32
}

/// The 64-bit value whose bits are those of `x` modulo 2^64.
pub open spec fn wrap64(x: int) -> u64 {
    (x % 0x1_0000_0000_0000_0000) as u64
}

/// The signed value of a 32-bit two's-complement word.
pub open spec fn s32(x: u32) -> int {
    if x < 0x8000_0000 {
        x as int
    } else {
        x - 0x1_0000_0000
    }
}

/// The signed value of a 64-bit two's-complement word.
pub open spec fn s64(x: u64) -> int {
    if x < 0x8000_0000_0000_0000 {
        x as int
    } else {
        x - 0x1_0000_0000_0000_0000
    }
}

/// Sign extension of a 32-bit word into a 64-bit register.
pub open spec fn sext32(x: u32) -> u64 {
    wrap64(s32(x))
}

/// Sign extension of a 16-bit immediate to 32 bits.
pub open spec fn sext16(imm: u32) -> u32 {
    if imm < 0x8000 {
        imm
    } else {
        (imm + 0xFFFF_0000) as u32
    }
}

/// Sign-extends a 32-bit word into a 64-bit register value.
pub fn sx64(x: u32) -> (r: u64)
    ensures
        r == sext32(x),
        s64(r) == s32(x),
{
    if x < 0x8000_0000 {
        x as u64
    } else {
        x as u64 + 0xFFFF_FFFF_0000_0000
    }
}

/// Sign-extends the low 16 bits of `imm` to 32 bits.
pub fn sx16(imm: u32) -> (r: u32)
    requires
        imm < 0x1_0000,
    ensures
        r == sext16(imm),
        s32(r) == (if imm < 0x8000 { imm as int } else { imm - 0x1_0000 }),
{
    if imm < 0x8000 {
        imm
    } else {
        imm + 0xFFFF_0000
    }
}

/// The signed reading of a 32-bit word.
pub fn signed32(x: u32) -> (r: i32)
    ensures
        r as int == s32(x),
{
    if x < 0x8000_0000 {
        x as i32
    } else {
        let m: u32 = x - 0x8000_0000;
        (m as i32) - 0x7FFF_FFFF - 1
    }
}

/// The signed reading of a 64-bit word.
pub fn signed64(x: u64) -> (r: i64)
    ensures
        r as int == s64(x),
{
    if x < 0x8000_0000_0000_0000 {
        x as i64
    } else {
        let m: u64 = x - 0x8000_0000_0000_0000;
        (m as i64) - 0x7FFF_FFFF_FFFF_FFFF - 1
    }
}

/// The two's-complement bits of a signed 32-bit value.
pub fn bits32(v: i32) -> (r: u32)
    ensures
        r == wrap32(v as int),
        s32(r) == v as int,
{
    if v >= 0 {
        v as u32
    } else {
        let m: i32 = v + 0x7FFF_FFFF + 1;
        m as u32 + 0x8000_0000
    }
}

/// The two's-complement bits of a signed 64-bit value.
pub fn bits64(v: i64) -> (r: u64)
    ensures
        r == wrap64(v as int),
        s64(r) == v as int,
{
    if v >= 0 {
        v as u64
    } else {
        let m: i64 = v + 0x7FFF_FFFF_FFFF_FFFF + 1;
        m as u64 + 0x8000_0000_0000_0000
    }
}

/// Adds two 32-bit words modulo 2^32.
pub fn add32(a: u32, b: u32) -> (r: u32)
    ensures
        r == wrap32(a + b),
{
    a.wrapping_add(b)
}

/// Subtracts two 32-bit words modulo 2^32.
pub fn sub32(a: u32, b: u32) -> (r: u32)
    ensures
        r == wrap32(a - b),
{
    a.wrapping_sub(b)
}

/// Adds two 64-bit words modulo 2^64.
pub fn add64(a: u64, b: u64) -> (r: u64)
    ensures
        r == wrap64(a + b),
{
    a.wrapping_add(b)
}

/// Subtracts two 64-bit words modulo 2^64.
pub fn sub64(a: u64, b: u64) -> (r: u64)
    ensures
        r == wrap64(a - b),
{
    a.wrapping_sub(b)
}

} // verus!
