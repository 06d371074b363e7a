//! Properties of the interpreter and of the MI that hold for every input.

use crate::arith::{s32, s64, sext16, sext32, wrap32, wrap64};
use crate::cpu::{branched, gpr, tick, with_gpr, CtxView};
use crate::isa::{
    btgt_of, funct_of, imm_alu, imm_of, is_muldiv, lo32, muldiv, op_of, rd_of, rs_of, rt_of, sa_of,
    special_alu,
};
use crate::mi::{bit, init_after, mask_after};
use crate::mips::{
    branch_cond, branch_step, finish, imm_step, lwl_merge, lwr_merge, regimm_step, special_step,
    step, swl_merge, swr_merge, Effect,
};
use vstd::arithmetic::div_mod::lemma_mod_multiples_vanish;
use vstd::prelude::*;

verus! {

/// The low word of a sign-extended word is the word itself.
pub proof fn lemma_low_of_sext(x: u32)
    ensures
        lo32(sext32(x)) == x,
{
    if x >= 0x8000_0000 {
        lemma_mod_multiples_vanish(1, x - 0x1_0000_0000, 0x1_0000_0000_0000_0000);
        lemma_mod_multiples_vanish(0xFFFF_FFFF, x as int, 0x1_0000_0000);
    }
}

/// The SPECIAL functions with a 32-bit result: the shifts SLL, SRL, SRA,
/// SLLV, SRLV, SRAV, and ADDU and SUBU.
pub open spec fn is_alu32(f: u32) -> bool {
    (f <= 0x07 && f != 0x01 && f != 0x05) || f == 0x21 || f == 0x23
}

/// Every 32-bit ALU result lands in its register sign-extended from bit 31:
/// the 64-bit value is the sign extension of its own low word. So are the
/// HI and LO halves of the 32-bit multiplies and divides.
pub proof fn lemma_alu32_sign_extended(f: u32, sa: u32, rs: u64, rt: u64)
    ensures
        is_alu32(f) ==> special_alu(f, sa, rs, rt) == sext32(lo32(special_alu(f, sa, rs, rt))),
        is_muldiv(f) && f <= 0x1B ==> muldiv(f, rs, rt).0 == sext32(lo32(muldiv(f, rs, rt).0))
            && muldiv(f, rs, rt).1 == sext32(lo32(muldiv(f, rs, rt).1)),
{
    let r = special_alu(f, sa, rs, rt);
    if is_alu32(f) {
        let y = if f == 0x00 {
            lo32(rt) << sa
        } else if f == 0x02 {
            lo32(rt) >> sa
        } else if f == 0x03 {
            crate::isa::sra32(lo32(rt), sa)
        } else if f == 0x04 {
            lo32(rt) << (lo32(rs) & 0x1F)
        } else if f == 0x06 {
            lo32(rt) >> (lo32(rs) & 0x1F)
        } else if f == 0x07 {
            crate::isa::sra32(lo32(rt), lo32(rs) & 0x1F)
        } else if f == 0x21 {
            wrap32(lo32(rs) + lo32(rt))
        } else {
            wrap32(lo32(rs) - lo32(rt))
        };
        assert(r == sext32(y));
        lemma_low_of_sext(y);
    }
    if is_muldiv(f) && f <= 0x1B {
        let (h, l) = muldiv(f, rs, rt);
        if f == 0x1A && lo32(rt) == 0 {
            lemma_low_of_sext(lo32(rs));
            if s32(lo32(rs)) < 0 {
                lemma_low_of_sext(1);
            } else {
                lemma_low_of_sext(0xFFFF_FFFF);
            }
        } else if f == 0x1B && lo32(rt) == 0 {
            lemma_low_of_sext(lo32(rs));
            lemma_low_of_sext(0xFFFF_FFFF);
        } else {
            let (a, b) = if f == 0x18 {
                let p = wrap64(s32(lo32(rs)) * s32(lo32(rt)));
                ((p / 0x1_0000_0000) as u32, wrap32(p as int))
            } else if f == 0x19 {
                let p = lo32(rs) as int * lo32(rt) as int;
                ((p / 0x1_0000_0000) as u32, wrap32(p))
            } else if f == 0x1A {
                (
                    wrap32(crate::isa::trem(s32(lo32(rs)), s32(lo32(rt)))),
                    wrap32(crate::isa::tquot(s32(lo32(rs)), s32(lo32(rt)))),
                )
            } else {
                (lo32(rs) % lo32(rt), lo32(rs) / lo32(rt))
            };
            assert(h == sext32(a) && l == sext32(b));
            lemma_low_of_sext(a);
            lemma_low_of_sext(b);
        }
    }
}

/// Executing a 32-bit ALU instruction (SLL, SRL, SRA, SLLV, SRLV, SRAV,
/// ADDU, SUBU, ADDIU or LUI) writes its destination register with the sign
/// extension of the register's own low word.
pub proof fn lemma_step_alu32_sign_extended(v: CtxView, ram: Seq<u8>, rom: Seq<u8>, w: u32) -> (c:
    CtxView)
    requires
        v.regs.len() == 32,
        (op_of(w) == 0x00 && is_alu32(funct_of(w))) || op_of(w) == 0x09 || op_of(w) == 0x0F,
    ensures
        step(v, ram, rom, w) == Effect::Regs(c),
        op_of(w) == 0x00 ==> gpr(c, rd_of(w) as int) == sext32(lo32(gpr(c, rd_of(w) as int))),
        op_of(w) != 0x00 ==> gpr(c, rt_of(w) as int) == sext32(lo32(gpr(c, rt_of(w) as int))),
{
    crate::isa::lemma_fields(w);
    let t = tick(v);
    if op_of(w) == 0x00 {
        lemma_step_is_special(v, ram, rom, w);
        let x = lemma_special_alu32(t, w);
        lemma_gpr_written(t, rd_of(w) as int, x);
        with_gpr(t, rd_of(w) as int, x)
    } else {
        lemma_step_is_imm(v, ram, rom, w);
        let x = lemma_imm_alu32(t, w);
        lemma_gpr_written(t, rt_of(w) as int, x);
        with_gpr(t, rt_of(w) as int, x)
    }
}

proof fn lemma_special_alu32(t: CtxView, w: u32) -> (x: u64)
    requires
        is_alu32(funct_of(w)),
    ensures
        special_step(t, w) == Effect::Regs(with_gpr(t, rd_of(w) as int, x)),
        x == sext32(lo32(x)),
{
    let x = special_alu(funct_of(w), sa_of(w), gpr(t, rs_of(w) as int), gpr(t, rt_of(w) as int));
    lemma_alu32_sign_extended(funct_of(w), sa_of(w), gpr(t, rs_of(w) as int), gpr(t, rt_of(w) as int));
    x
}

proof fn lemma_imm_alu32(t: CtxView, w: u32) -> (x: u64)
    requires
        op_of(w) == 0x09 || op_of(w) == 0x0F,
    ensures
        imm_step(t, w) == Effect::Regs(with_gpr(t, rt_of(w) as int, x)),
        x == sext32(lo32(x)),
{
    let imm = imm_of(w);
    let rsv = gpr(t, rs_of(w) as int);
    if op_of(w) == 0x09 {
        lemma_low_of_sext(wrap32(lo32(rsv) + sext16(imm)));
    } else {
        lemma_low_of_sext((imm * 0x1_0000) as u32);
    }
    imm_alu(op_of(w), rsv, imm)
}

/// Reading back a register write: the value, or zero for register 0.
proof fn lemma_gpr_written(c: CtxView, d: int, x: u64)
    requires
        0 <= d < 32,
        c.regs.len() == 32,
        x == sext32(lo32(x)),
    ensures
        gpr(with_gpr(c, d, x), d) == sext32(lo32(gpr(with_gpr(c, d, x), d))),
{
    if d == 0 {
        lemma_low_of_sext(0);
    }
}

proof fn lemma_step_is_special(v: CtxView, ram: Seq<u8>, rom: Seq<u8>, w: u32)
    requires
        op_of(w) == 0x00,
    ensures
        step(v, ram, rom, w) == special_step(tick(v), w),
{
}

proof fn lemma_step_is_imm(v: CtxView, ram: Seq<u8>, rom: Seq<u8>, w: u32)
    requires
        op_of(w) == 0x09 || op_of(w) == 0x0F,
    ensures
        step(v, ram, rom, w) == imm_step(tick(v), w),
{
}

/// The context as the run loop hands it to an instruction: the PC moved
/// past it.
pub open spec fn advanced(v: CtxView) -> CtxView {
    CtxView { pc: wrap32(v.pc + 4), ..v }
}

proof fn lemma_pc_plus_8(pc: u32)
    ensures
        wrap32(wrap32(pc + 4) + 4) == wrap32(pc + 8),
{
    let p = pc as int;
    if p + 4 >= 0x1_0000_0000 {
        lemma_mod_multiples_vanish(-1, p + 4, 0x1_0000_0000);
        lemma_mod_multiples_vanish(-1, p + 8, 0x1_0000_0000);
    }
}

proof fn lemma_step_is_branch(a: CtxView, ram: Seq<u8>, rom: Seq<u8>, w: u32)
    requires
        (0x04 <= op_of(w) <= 0x07) || (0x14 <= op_of(w) <= 0x17),
    ensures
        step(a, ram, rom, w) == branch_step(tick(a), w),
{
}

/// A likely branch (BEQL, BNEL, BLEZL, BGTZL) that is not taken skips its
/// delay slot: from the branch's address the PC moves on by 8 and the clock
/// by 2, and the straight-line run ends.
pub proof fn lemma_likely_not_taken(v: CtxView, ram: Seq<u8>, rom: Seq<u8>, w: u32)
    requires
        0x14 <= op_of(w) <= 0x17,
        !branch_cond(op_of(w) % 4, gpr(v, rs_of(w) as int), gpr(v, rt_of(w) as int)),
    ensures
        step(advanced(v), ram, rom, w) == Effect::Regs(
            CtxView { pc: wrap32(v.pc + 8), clock: v.clock + 2, tight_exit: true, ..v },
        ),
{
    lemma_pc_plus_8(v.pc);
    let a = advanced(v);
    lemma_step_is_branch(a, ram, rom, w);
    assert(gpr(tick(a), rs_of(w) as int) == gpr(v, rs_of(w) as int));
    assert(gpr(tick(a), rt_of(w) as int) == gpr(v, rt_of(w) as int));
}

/// The same for BLTZL and BGEZL.
pub proof fn lemma_regimm_likely_not_taken(v: CtxView, ram: Seq<u8>, rom: Seq<u8>, w: u32)
    requires
        op_of(w) == 0x01,
        rt_of(w) == 0x02 || rt_of(w) == 0x03,
        rt_of(w) == 0x02 ==> s64(gpr(v, rs_of(w) as int)) >= 0,
        rt_of(w) == 0x03 ==> s64(gpr(v, rs_of(w) as int)) < 0,
    ensures
        step(advanced(v), ram, rom, w) == Effect::Regs(
            CtxView { pc: wrap32(v.pc + 8), clock: v.clock + 2, tight_exit: true, ..v },
        ),
{
    lemma_pc_plus_8(v.pc);
    let a = advanced(v);
    lemma_step_is_regimm(a, ram, rom, w);
    assert(gpr(tick(a), rs_of(w) as int) == gpr(v, rs_of(w) as int));
}

proof fn lemma_step_is_regimm(a: CtxView, ram: Seq<u8>, rom: Seq<u8>, w: u32)
    requires
        op_of(w) == 0x01,
    ensures
        step(a, ram, rom, w) == regimm_step(tick(a), w),
{
}

/// A taken branch (BEQ, BNE, BLEZ, BGTZ or a likely form) whose delay slot
/// holds an instruction that neither branches nor touches memory or a
/// coprocessor: after the pair the PC is the branch target, no branch is
/// pending, and the registers are those that the delay slot left.
pub proof fn lemma_taken_branch_pair(
    v: CtxView,
    ram: Seq<u8>,
    rom: Seq<u8>,
    b: u32,
    d: u32,
    c2: CtxView,
)
    requires
        (0x04 <= op_of(b) <= 0x07) || (0x14 <= op_of(b) <= 0x17),
        branch_cond(op_of(b) % 4, gpr(v, rs_of(b) as int), gpr(v, rt_of(b) as int)),
        btgt_of(wrap32(v.pc + 4), imm_of(b)) != 0,
        step(
            branched(
                tick(advanced(v)),
                true,
                btgt_of(wrap32(v.pc + 4), imm_of(b)),
                op_of(b) >= 0x14,
            ),
            ram,
            rom,
            d,
        ) == Effect::Regs(c2),
        c2.branch_pc == btgt_of(wrap32(v.pc + 4), imm_of(b)),
    ensures
        step(advanced(v), ram, rom, b) == Effect::Regs(
            branched(
                tick(advanced(v)),
                true,
                btgt_of(wrap32(v.pc + 4), imm_of(b)),
                op_of(b) >= 0x14,
            ),
        ),
        finish(c2).pc == btgt_of(wrap32(v.pc + 4), imm_of(b)),
        finish(c2).branch_pc == 0,
        finish(c2).regs == c2.regs,
        finish(c2).hi == c2.hi && finish(c2).lo == c2.lo,
{
}

/// Register 0 drops every write and reads as zero.
pub proof fn lemma_gpr0_write_dropped(c: CtxView, x: u64)
    ensures
        with_gpr(c, 0, x) == c,
        gpr(with_gpr(c, 0, x), 0) == 0,
{
}

/// Word-level round trip of the unaligned stores and loads: SWL at `ea` and
/// SWR at `ea + 3` store `v` across the aligned words that hold those
/// addresses (`w1` and `w2`; one word when `ea` is aligned), and LWL at
/// `ea` then LWR at `ea + 3` read `v` back, whatever the register held.
pub proof fn lemma_unaligned_round_trip(ea: u32, v: u32, w1: u32, w2: u32, reg: u32)
    requires
        ea + 3 < 0x1_0000_0000,
    ensures
        ea & 3 == 0 ==> ({
            let m = swr_merge(swl_merge(w1, v, ea), v, (ea + 3) as u32);
            lwr_merge(lwl_merge(reg, m, ea), m, (ea + 3) as u32) == v
        }),
        ea & 3 != 0 ==> lwr_merge(
            lwl_merge(reg, swl_merge(w1, v, ea), ea),
            swr_merge(w2, v, (ea + 3) as u32),
            (ea + 3) as u32,
        ) == v,
{
    let e3 = (ea + 3) as u32;
    assert(ea & 3 == 0 ==> ({
        let m = swr_merge(swl_merge(w1, v, ea), v, e3);
        lwr_merge(lwl_merge(reg, m, ea), m, e3) == v
    })) by (bit_vector)
        requires
            e3 == ea + 3,
    ;
    assert(ea & 3 != 0 ==> lwr_merge(lwl_merge(reg, swl_merge(w1, v, ea), ea), swr_merge(w2, v, e3), e3)
        == v) by (bit_vector)
        requires
            e3 == ea + 3,
    ;
}

/// Writing the same value to `interrupt_mask` twice leaves what writing it
/// once leaves.
pub proof fn lemma_mask_write_idempotent(m: u32, w: u32)
    ensures
        mask_after(mask_after(m, w), w) == mask_after(m, w),
{
    assert(mask_after(mask_after(m, w), w) == mask_after(m, w)) by (bit_vector);
}

/// Writing the same value to `init_mode` twice leaves what writing it once
/// leaves.
pub proof fn lemma_init_write_idempotent(m: u32, w: u32)
    ensures
        init_after(init_after(m, w), w) == init_after(m, w),
{
    assert(init_after(init_after(m, w), w) == init_after(m, w)) by (bit_vector);
}

/// Clearing the mask of line `i` and then setting it leaves it set.
pub proof fn lemma_mask_clear_then_set(m: u32, i: u32)
    requires
        i < 6,
    ensures
        bit(mask_after(mask_after(m, 1u32 << (2 * i)), 1u32 << (2 * i + 1)), i as usize),
{
    assert(bit(mask_after(mask_after(m, 1u32 << (2 * i)), 1u32 << (2 * i + 1)), i as usize))
        by (bit_vector)
        requires
            i < 6,
    ;
}

/// Clearing and setting the mask of line `i` in one write sets it.
pub proof fn lemma_mask_clear_and_set(m: u32, i: u32)
    requires
        i < 6,
    ensures
        bit(mask_after(m, (1u32 << (2 * i)) | (1u32 << (2 * i + 1))), i as usize),
{
    assert(bit(mask_after(m, (1u32 << (2 * i)) | (1u32 << (2 * i + 1))), i as usize))
        by (bit_vector)
        requires
            i < 6,
    ;
}

} // verus!
