//! MIPS III instruction fields and the values that ALU, multiply/divide and
//! branch instructions compute, each given as a spec function with an
//! executable counterpart.

use crate::arith::{
    add32, add64, bits32, bits64, s32, s64, sext16, sext32, signed32, signed64, sub32, sub64,
    sx16, sx64, wrap32, wrap64,
};
use vstd::arithmetic::div_mod::{
    lemma_div_multiples_vanish_fancy, lemma_fundamental_div_mod, lemma_mod_mod,
    lemma_mod_multiples_vanish,
};
use vstd::prelude::*;

verus! {

/// Primary opcode, bits 31..26.
pub open spec fn op_of(w: u32) -> u32 {
    w >> 26
}

/// SPECIAL function code, bits 5..0.
pub open spec fn funct_of(w: u32) -> u32 {
    w & 0x3f
}

/// Source register, bits 25..21.
pub open spec fn rs_of(w: u32) -> u32 {
    (w >> 21) & 0x1f
}

/// Target register, bits 20..16.
pub open spec fn rt_of(w: u32) -> u32 {
    (w >> 16) & 0x1f
}

/// Destination register, bits 15..11.
pub open spec fn rd_of(w: u32) -> u32 {
    (w >> 11) & 0x1f
}

/// Shift amount, bits 10..6.
pub open spec fn sa_of(w: u32) -> u32 {
    (w >> 6) & 0x1f
}

/// 16-bit immediate, bits 15..0.
pub open spec fn imm_of(w: u32) -> u32 {
    w & 0xffff
}

/// 26-bit jump index, bits 25..0.
pub open spec fn jimm_of(w: u32) -> u32 {
    w & 0x03FF_FFFF
}

/// Bounds of the decoded fields.
pub proof fn lemma_fields(w: u32)
    ensures
        op_of(w) < 64,
        funct_of(w) < 64,
        rs_of(w) < 32,
        rt_of(w) < 32,
        rd_of(w) < 32,
        sa_of(w) < 32,
        imm_of(w) < 0x1_0000,
        jimm_of(w) < 0x0400_0000,
{
    assert(w >> 26 < 64) by (bit_vector);
    assert(w & 0x3f < 64) by (bit_vector);
    assert((w >> 21) & 0x1f < 32) by (bit_vector);
    assert((w >> 16) & 0x1f < 32) by (bit_vector);
    assert((w >> 11) & 0x1f < 32) by (bit_vector);
    assert((w >> 6) & 0x1f < 32) by (bit_vector);
    assert(w & 0xffff < 0x1_0000) by (bit_vector);
    assert(w & 0x03FF_FFFF < 0x0400_0000) by (bit_vector);
}

/// A decoded instruction word.
#[derive(Clone, Copy)]
pub struct Mipsop {
    pub opcode: u32,
}

impl Mipsop {
    pub fn op(&self) -> (r: u32)
        ensures
            r == op_of(self.opcode),
            r < 64,
    {
        proof {
            lemma_fields(self.opcode);
        }
        self.opcode >> 26
    }

    pub fn special(&self) -> (r: u32)
        ensures
            r == funct_of(self.opcode),
            r < 64,
    {
        proof {
            lemma_fields(self.opcode);
        }
        self.opcode & 0x3f
    }

    pub fn sa(&self) -> (r: u32)
        ensures
            r == sa_of(self.opcode),
            r < 32,
    {
        proof {
            lemma_fields(self.opcode);
        }
        (self.opcode >> 6) & 0x1f
    }

    pub fn rs(&self) -> (r: usize)
        ensures
            r == rs_of(self.opcode),
            r < 32,
    {
        proof {
            lemma_fields(self.opcode);
        }
        ((self.opcode >> 21) & 0x1f) as usize
    }

    pub fn rt(&self) -> (r: usize)
        ensures
            r == rt_of(self.opcode),
            r < 32,
    {
        proof {
            lemma_fields(self.opcode);
        }
        ((self.opcode >> 16) & 0x1f) as usize
    }

    pub fn rd(&self) -> (r: usize)
        ensures
            r == rd_of(self.opcode),
            r < 32,
    {
        proof {
            lemma_fields(self.opcode);
        }
        ((self.opcode >> 11) & 0x1f) as usize
    }

    /// The 16-bit immediate.
    pub fn imm(&self) -> (r: u32)
        ensures
            r == imm_of(self.opcode),
            r < 0x1_0000,
    {
        proof {
            lemma_fields(self.opcode);
        }
        self.opcode & 0xffff
    }

    /// The immediate sign-extended to 32 bits.
    pub fn sximm32(&self) -> (r: u32)
        ensures
            r == sext16(imm_of(self.opcode)),
    {
        proof {
            lemma_fields(self.opcode);
        }
        sx16(self.opcode & 0xffff)
    }

    /// The immediate sign-extended to 64 bits.
    pub fn sximm64(&self) -> (r: u64)
        ensures
            r == sext32(sext16(imm_of(self.opcode))),
    {
        sx64(self.sximm32())
    }

    /// The immediate zero-extended to 64 bits.
    pub fn imm64(&self) -> (r: u64)
        ensures
            r == imm_of(self.opcode) as u64,
    {
        (self.opcode & 0xffff) as u64
    }

    /// The jump index.
    pub fn jimm(&self) -> (r: u32)
        ensures
            r == jimm_of(self.opcode),
            r < 0x0400_0000,
    {
        proof {
            lemma_fields(self.opcode);
        }
        self.opcode & 0x03FF_FFFF
    }
}

/// Branch target: `pc` (already past the branch) plus four times the
/// sign-extended immediate, modulo 2^32.
pub open spec fn btgt_of(pc: u32, imm: u32) -> u32 {
    wrap32(pc + 4 * s32(sext16(imm)))
}

/// Jump target: the top four bits of `pc` with four times the jump index.
pub open spec fn jtgt_of(pc: u32, jimm: u32) -> u32 {
    ((pc & 0xF000_0000) + jimm * 4) as u32
}

/// Effective address: low word of the base plus the sign-extended
/// immediate, modulo 2^32.
pub open spec fn ea_of(base: u64, imm: u32) -> u32 {
    wrap32((base as u32) + sext16(imm))
}

pub fn btgt(pc: u32, imm: u32) -> (r: u32)
    requires
        imm < 0x1_0000,
    ensures
        r == btgt_of(pc, imm),
{
    let x = sx16(imm);
    let off = x.wrapping_mul(4);
    proof {
        assert(s32(x) >= -0x8000 && s32(x) < 0x8000);
        assert(off == wrap32(4 * x)) by {
            assert(off == ((x as nat * 4) % 0x1_0000_0000) as u32);
        }
        assert(wrap32(pc + wrap32(4 * x)) == wrap32(pc + 4 * s32(x)));
    }
    add32(pc, off)
}

pub fn jtgt(pc: u32, jimm: u32) -> (r: u32)
    requires
        jimm < 0x0400_0000,
    ensures
        r == jtgt_of(pc, jimm),
{
    let top = pc & 0xF000_0000;
    proof {
        assert(pc & 0xF000_0000 <= 0xF000_0000) by (bit_vector);
    }
    top + jimm * 4
}

pub fn ea(base: u64, imm: u32) -> (r: u32)
    requires
        imm < 0x1_0000,
    ensures
        r == ea_of(base, imm),
{
    add32(base as u32, sx16(imm))
}

/// The low 32 bits of a register.
pub open spec fn lo32(x: u64) -> u32 {
    wrap32(x as int)
}

pub fn low32(x: u64) -> (r: u32)
    ensures
        r == lo32(x),
{
    assert(x as u32 == (x % 0x1_0000_0000) as u32) by (bit_vector);
    x as u32
}

/// Arithmetic right shift of a 32-bit word.
pub open spec fn sra32(x: u32, s: u32) -> u32 {
    wrap32(((s32(x) as i32) >> s) as int)
}

/// Arithmetic right shift of a 64-bit word.
pub open spec fn sra64(x: u64, s: u32) -> u64 {
    wrap64(((s64(x) as i64) >> s) as int)
}

pub fn shift_ra32(x: u32, s: u32) -> (r: u32)
    requires
        s < 32,
    ensures
        r == sra32(x, s),
{
    bits32(signed32(x) >> s)
}

pub fn shift_ra64(x: u64, s: u32) -> (r: u64)
    requires
        s < 64,
    ensures
        r == sra64(x, s),
{
    bits64(signed64(x) >> s)
}

/// 1 where `b` holds, else 0.
pub open spec fn flag(b: bool) -> u64 {
    if b {
        1
    } else {
        0
    }
}

/// Whether `f` is a SPECIAL function whose only effect is a value written
/// to `rd`.
pub open spec fn is_special_alu(f: u32) -> bool {
    ||| 0x00 <= f <= 0x07 && f != 0x01 && f != 0x05
    ||| f == 0x14 || f == 0x16 || f == 0x17
    ||| f == 0x21 || f == 0x23
    ||| 0x24 <= f <= 0x27
    ||| f == 0x2A || f == 0x2B || f == 0x2D || f == 0x2F
    ||| f == 0x38 || f == 0x3A || f == 0x3B || f == 0x3C || f == 0x3E || f == 0x3F
}

/// The value that the SPECIAL ALU function `f` writes to `rd`. Every
/// 32-bit result is sign-extended into the register.
pub open spec fn special_alu(f: u32, sa: u32, rs: u64, rt: u64) -> u64 {
    let rs32 = lo32(rs);
    let rt32 = lo32(rt);
    let v = rs32 & 0x1F;
    let dv = rs32 & 0x3F;
    if f == 0x00 {
        sext32(rt32 << sa)
    } else if f == 0x02 {
        sext32(rt32 >> sa)
    } else if f == 0x03 {
        sext32(sra32(rt32, sa))
    } else if f == 0x04 {
        sext32(rt32 << v)
    } else if f == 0x06 {
        sext32(rt32 >> v)
    } else if f == 0x07 {
        sext32(sra32(rt32, v))
    } else if f == 0x14 {
        rt << dv
    } else if f == 0x16 {
        rt >> dv
    } else if f == 0x17 {
        sra64(rt, dv)
    } else if f == 0x21 {
        sext32(wrap32(rs32 + rt32))
    } else if f == 0x23 {
        sext32(wrap32(rs32 - rt32))
    } else if f == 0x24 {
        rs & rt
    } else if f == 0x25 {
        rs | rt
    } else if f == 0x26 {
        rs ^ rt
    } else if f == 0x27 {
        !(rs | rt)
    } else if f == 0x2A {
        flag(s32(rs32) < s32(rt32))
    } else if f == 0x2B {
        flag(rs32 < rt32)
    } else if f == 0x2D {
        wrap64(rs + rt)
    } else if f == 0x2F {
        wrap64(rs - rt)
    } else if f == 0x38 {
        rt << sa
    } else if f == 0x3A {
        rt >> sa
    } else if f == 0x3B {
        sra64(rt, sa)
    } else if f == 0x3C {
        rt << (sa + 32)
    } else if f == 0x3E {
        rt >> (sa + 32)
    } else {
        sra64(rt, (sa + 32) as u32)
    }
}

pub fn alu_special(f: u32, sa: u32, rs: u64, rt: u64) -> (r: u64)
    requires
        is_special_alu(f),
        sa < 32,
    ensures
        r == special_alu(f, sa, rs, rt),
{
    let rs32 = low32(rs);
    let rt32 = low32(rt);
    let v = rs32 & 0x1F;
    let dv = rs32 & 0x3F;
    proof {
        assert(rs32 & 0x1F < 32) by (bit_vector);
        assert(rs32 & 0x3F < 64) by (bit_vector);
    }
    match f {
        0x00 => sx64(rt32 << sa),
        0x02 => sx64(rt32 >> sa),
        0x03 => sx64(shift_ra32(rt32, sa)),
        0x04 => sx64(rt32 << v),
        0x06 => sx64(rt32 >> v),
        0x07 => sx64(shift_ra32(rt32, v)),
        0x14 => rt << dv,
        0x16 => rt >> dv,
        0x17 => shift_ra64(rt, dv),
        0x21 => sx64(add32(rs32, rt32)),
        0x23 => sx64(sub32(rs32, rt32)),
        0x24 => rs & rt,
        0x25 => rs | rt,
        0x26 => rs ^ rt,
        0x27 => !(rs | rt),
        0x2A => if signed32(rs32) < signed32(rt32) {
            1
        } else {
            0
        },
        0x2B => if rs32 < rt32 {
            1
        } else {
            0
        },
        0x2D => add64(rs, rt),
        0x2F => sub64(rs, rt),
        0x38 => rt << sa,
        0x3A => rt >> sa,
        0x3B => shift_ra64(rt, sa),
        0x3C => rt << (sa + 32),
        0x3E => rt >> (sa + 32),
        _ => shift_ra64(rt, sa + 32),
    }
}

/// Whether primary opcode `op` is an immediate ALU instruction that cannot
/// trap.
pub open spec fn is_imm_alu(op: u32) -> bool {
    op == 0x09 || (0x0A <= op <= 0x0F) || op == 0x19
}

/// The value that the immediate ALU instruction `op` writes to `rt`.
pub open spec fn imm_alu(op: u32, rs: u64, imm: u32) -> u64 {
    let rs32 = lo32(rs);
    let sx = sext16(imm);
    if op == 0x09 {
        sext32(wrap32(rs32 + sx))
    } else if op == 0x0A {
        flag(s32(rs32) < s32(sx))
    } else if op == 0x0B {
        flag(rs32 < sx)
    } else if op == 0x0C {
        rs & (imm as u64)
    } else if op == 0x0D {
        rs | (imm as u64)
    } else if op == 0x0E {
        rs ^ (imm as u64)
    } else if op == 0x0F {
        sext32((imm * 0x1_0000) as u32)
    } else {
        wrap64(rs + sext32(sx))
    }
}

pub fn alu_imm(op: u32, rs: u64, imm: u32) -> (r: u64)
    requires
        is_imm_alu(op),
        imm < 0x1_0000,
    ensures
        r == imm_alu(op, rs, imm),
{
    let rs32 = low32(rs);
    let sx = sx16(imm);
    match op {
        0x09 => sx64(add32(rs32, sx)),
        0x0A => if signed32(rs32) < signed32(sx) {
            1
        } else {
            0
        },
        0x0B => if rs32 < sx {
            1
        } else {
            0
        },
        0x0C => rs & (imm as u64),
        0x0D => rs | (imm as u64),
        0x0E => rs ^ (imm as u64),
        0x0F => sx64(imm * 0x1_0000),
        _ => add64(rs, sx64(sx)),
    }
}

/// The signed 32-bit sum of the low words of `a` and `b`, where it does
/// not overflow.
pub open spec fn add_trap32(a: u64, b: u64) -> Option<u64> {
    let sum = s32(lo32(a)) + s32(lo32(b));
    if -0x8000_0000 <= sum < 0x8000_0000 {
        Some(sext32(wrap32(sum)))
    } else {
        None
    }
}

/// The signed 32-bit difference of the low words, where it does not overflow.
pub open spec fn sub_trap32(a: u64, b: u64) -> Option<u64> {
    let d = s32(lo32(a)) - s32(lo32(b));
    if -0x8000_0000 <= d < 0x8000_0000 {
        Some(sext32(wrap32(d)))
    } else {
        None
    }
}

/// The signed 64-bit sum, where it does not overflow.
pub open spec fn add_trap64(a: u64, b: u64) -> Option<u64> {
    let sum = s64(a) + s64(b);
    if -0x8000_0000_0000_0000 <= sum < 0x8000_0000_0000_0000 {
        Some(wrap64(sum))
    } else {
        None
    }
}

/// The signed 64-bit difference, where it does not overflow.
pub open spec fn sub_trap64(a: u64, b: u64) -> Option<u64> {
    let d = s64(a) - s64(b);
    if -0x8000_0000_0000_0000 <= d < 0x8000_0000_0000_0000 {
        Some(wrap64(d))
    } else {
        None
    }
}

pub fn checked_add32(a: u64, b: u64) -> (r: Option<u64>)
    ensures
        r == add_trap32(a, b),
{
    match signed32(low32(a)).checked_add(signed32(low32(b))) {
        Some(v) => Some(sx64(bits32(v))),
        None => None,
    }
}

pub fn checked_sub32(a: u64, b: u64) -> (r: Option<u64>)
    ensures
        r == sub_trap32(a, b),
{
    match signed32(low32(a)).checked_sub(signed32(low32(b))) {
        Some(v) => Some(sx64(bits32(v))),
        None => None,
    }
}

pub fn checked_add64(a: u64, b: u64) -> (r: Option<u64>)
    ensures
        r == add_trap64(a, b),
{
    match signed64(a).checked_add(signed64(b)) {
        Some(v) => Some(bits64(v)),
        None => None,
    }
}

pub fn checked_sub64(a: u64, b: u64) -> (r: Option<u64>)
    ensures
        r == sub_trap64(a, b),
{
    match signed64(a).checked_sub(signed64(b)) {
        Some(v) => Some(bits64(v)),
        None => None,
    }
}

/// Absolute value.
pub open spec fn abs(x: int) -> int {
    if x < 0 {
        -x
    } else {
        x
    }
}

/// Quotient rounded toward zero.
pub open spec fn tquot(a: int, b: int) -> int {
    if (a < 0) == (b < 0) {
        abs(a) / abs(b)
    } else {
        -(abs(a) / abs(b))
    }
}

/// Remainder that takes the sign of the dividend.
pub open spec fn trem(a: int, b: int) -> int {
    if a < 0 {
        -(abs(a) % abs(b))
    } else {
        abs(a) % abs(b)
    }
}

/// Whether `f` is one of the SPECIAL multiply/divide functions.
pub open spec fn is_muldiv(f: u32) -> bool {
    0x18 <= f <= 0x1F
}

/// `(HI, LO)` after the multiply/divide function `f` on `rs` and `rt`.
/// Products are split into halves; 32-bit halves, quotients and remainders
/// are sign-extended. A division by zero leaves the dividend in HI and, in
/// LO, 1 for a negative signed dividend and all ones otherwise.
pub open spec fn muldiv(f: u32, rs: u64, rt: u64) -> (u64, u64) {
    let a = lo32(rs);
    let b = lo32(rt);
    if f == 0x18 {
        let p = wrap64(s32(a) * s32(b));
        (sext32((p / 0x1_0000_0000) as u32), sext32(wrap32(p as int)))
    } else if f == 0x19 {
        let p = a as int * b as int;
        (sext32((p / 0x1_0000_0000) as u32), sext32(wrap32(p)))
    } else if f == 0x1A {
        if b == 0 {
            (sext32(a), if s32(a) < 0 { 1 } else { 0xFFFF_FFFF_FFFF_FFFF })
        } else {
            (sext32(wrap32(trem(s32(a), s32(b)))), sext32(wrap32(tquot(s32(a), s32(b)))))
        }
    } else if f == 0x1B {
        if b == 0 {
            (sext32(a), 0xFFFF_FFFF_FFFF_FFFF)
        } else {
            (sext32(a % b), sext32(a / b))
        }
    } else if f == 0x1C {
        let p = s64(rs) * s64(rt);
        (wrap64(p / 0x1_0000_0000_0000_0000), wrap64(p))
    } else if f == 0x1D {
        let p = rs as int * rt as int;
        ((p / 0x1_0000_0000_0000_0000) as u64, wrap64(p))
    } else if f == 0x1E {
        if rt == 0 {
            (rs, if s64(rs) < 0 { 1 } else { 0xFFFF_FFFF_FFFF_FFFF })
        } else {
            (wrap64(trem(s64(rs), s64(rt))), wrap64(tquot(s64(rs), s64(rt))))
        }
    } else {
        if rt == 0 {
            (rs, 0xFFFF_FFFF_FFFF_FFFF)
        } else {
            (rs % rt, rs / rt)
        }
    }
}

fn magnitude(a: i64) -> (r: u64)
    ensures
        r == abs(a as int),
{
    if a >= 0 {
        a as u64
    } else if a == i64::MIN {
        0x8000_0000_0000_0000
    } else {
        (-a) as u64
    }
}

/// The 64-bit two's-complement bits of `neg ? -m : m`.
fn signed_bits(m: u64, neg: bool) -> (r: u64)
    ensures
        r == wrap64(if neg { -(m as int) } else { m as int }),
{
    if neg {
        proof {
            if m > 0 {
                lemma_mod_multiples_vanish(1, -(m as int), 0x1_0000_0000_0000_0000);
            }
        }
        0u64.wrapping_sub(m)
    } else {
        m
    }
}

/// The low word of `wrap64(x)` is the low word of `x`.
proof fn lemma_low_of_wrap(x: int)
    ensures
        wrap32(wrap64(x) as int) == wrap32(x),
{
    lemma_mod_mod(x, 0x1_0000_0000, 0x1_0000_0000);
}

/// Signed 32-bit division and remainder, as `(HI, LO)`.
fn div32(a: u32, b: u32) -> (r: (u64, u64))
    requires
        b != 0,
    ensures
        r == (sext32(wrap32(trem(s32(a), s32(b)))), sext32(wrap32(tquot(s32(a), s32(b))))),
{
    let x = signed32(a) as i64;
    let y = signed32(b) as i64;
    let ux = magnitude(x);
    let uy = magnitude(y);
    let q = signed_bits(ux / uy, (x < 0) != (y < 0));
    let m = signed_bits(ux % uy, x < 0);
    proof {
        lemma_low_of_wrap(tquot(s32(a), s32(b)));
        lemma_low_of_wrap(trem(s32(a), s32(b)));
    }
    (sx64(low32(m)), sx64(low32(q)))
}

/// Signed 64-bit division and remainder, as `(HI, LO)`.
fn div64(a: u64, b: u64) -> (r: (u64, u64))
    requires
        b != 0,
    ensures
        r == (wrap64(trem(s64(a), s64(b))), wrap64(tquot(s64(a), s64(b)))),
{
    let x = signed64(a);
    let y = signed64(b);
    let ux = magnitude(x);
    let uy = magnitude(y);
    let q = signed_bits(ux / uy, (x < 0) != (y < 0));
    let m = signed_bits(ux % uy, x < 0);
    (m, q)
}

pub fn mul_div(f: u32, rs: u64, rt: u64) -> (r: (u64, u64))
    requires
        is_muldiv(f),
    ensures
        r == muldiv(f, rs, rt),
{
    let a = low32(rs);
    let b = low32(rt);
    match f {
        0x18 => {
            let x = signed32(a) as i64;
            let y = signed32(b) as i64;
            proof {
                assert(-0x4000_0000_0000_0000 <= x * y <= 0x4000_0000_0000_0000) by (nonlinear_arith)
                    requires
                        -0x8000_0000 <= x <= 0x7FFF_FFFF,
                        -0x8000_0000 <= y <= 0x7FFF_FFFF,
                ;
            }
            let p = bits64(x * y);
            proof {
                lemma_mod_mod(p as int, 0x1_0000_0000, 0x1_0000_0000);
            }
            (sx64((p / 0x1_0000_0000) as u32), sx64(low32(p)))
        },
        0x19 => {
            let x = a as u64;
            let y = b as u64;
            proof {
                assert(x * y <= 0xFFFF_FFFE_0000_0001) by (nonlinear_arith)
                    requires
                        x <= 0xFFFF_FFFF,
                        y <= 0xFFFF_FFFF,
                ;
            }
            let p = x * y;
            (sx64((p / 0x1_0000_0000) as u32), sx64(low32(p)))
        },
        0x1A => {
            if b == 0 {
                (sx64(a), if signed32(a) < 0 {
                    1
                } else {
                    0xFFFF_FFFF_FFFF_FFFF
                })
            } else {
                div32(a, b)
            }
        },
        0x1B => {
            if b == 0 {
                (sx64(a), 0xFFFF_FFFF_FFFF_FFFF)
            } else {
                (sx64(a % b), sx64(a / b))
            }
        },
        0x1C => {
            let x = signed64(rs) as i128;
            let y = signed64(rt) as i128;
            proof {
                assert(-0x4000_0000_0000_0000_0000_0000_0000_0000 <= x * y
                    <= 0x4000_0000_0000_0000_0000_0000_0000_0000) by (nonlinear_arith)
                    requires
                        -0x8000_0000_0000_0000 <= x <= 0x7FFF_FFFF_FFFF_FFFF,
                        -0x8000_0000_0000_0000 <= y <= 0x7FFF_FFFF_FFFF_FFFF,
                ;
            }
            let p = x * y;
            let (hi, lo) = product_halves(p);
            (hi, lo)
        },
        0x1D => {
            let x = rs as u128;
            let y = rt as u128;
            proof {
                assert(x * y <= 0xFFFF_FFFF_FFFF_FFFE_0000_0000_0000_0001) by (nonlinear_arith)
                    requires
                        x <= 0xFFFF_FFFF_FFFF_FFFF,
                        y <= 0xFFFF_FFFF_FFFF_FFFF,
                ;
            }
            let p = x * y;
            ((p / 0x1_0000_0000_0000_0000) as u64, (p % 0x1_0000_0000_0000_0000) as u64)
        },
        0x1E => {
            if rt == 0 {
                (rs, if signed64(rs) < 0 {
                    1
                } else {
                    0xFFFF_FFFF_FFFF_FFFF
                })
            } else {
                div64(rs, rt)
            }
        },
        _ => {
            if rt == 0 {
                (rs, 0xFFFF_FFFF_FFFF_FFFF)
            } else {
                (rs % rt, rs / rt)
            }
        },
    }
}

/// The high and low 64-bit halves of a signed 128-bit product.
fn product_halves(p: i128) -> (r: (u64, u64))
    requires
        -0x4000_0000_0000_0000_0000_0000_0000_0000 <= p <= 0x4000_0000_0000_0000_0000_0000_0000_0000,
    ensures
        r == (wrap64(p / 0x1_0000_0000_0000_0000), wrap64(p as int)),
{
    if p >= 0 {
        let u = p as u128;
        ((u / 0x1_0000_0000_0000_0000) as u64, (u % 0x1_0000_0000_0000_0000) as u64)
    } else {
        let m: u128 = (p + 0x4000_0000_0000_0000_0000_0000_0000_0000) as u128;
        let u: u128 = m + 0xC000_0000_0000_0000_0000_0000_0000_0000;
        proof {
            let pi = p as int;
            let k: int = 0x1_0000_0000_0000_0000;
            assert(u == pi + k * k);
            lemma_fundamental_div_mod(pi, k);
            assert(u == k * (pi / k + k) + pi % k) by (nonlinear_arith)
                requires
                    u == pi + k * k,
                    pi == k * (pi / k) + pi % k,
            ;
            lemma_div_multiples_vanish_fancy(pi / k + k, pi % k, k);
            lemma_mod_multiples_vanish(1, pi / k, k);
            lemma_mod_multiples_vanish(k, pi, k);
        }
        ((u / 0x1_0000_0000_0000_0000) as u64, (u % 0x1_0000_0000_0000_0000) as u64)
    }
}

} // verus!
