//! The MIPS64 interpreter: what one instruction does (`step`), the CPU that
//! executes it (`Cpu::op`), and the run loop with its delay-slot protocol.

use crate::arith::{sext16, sext32, sx16, sx64, wrap32};
use crate::bus::{
    lemma_store_len_any, load_from, phys, phys_addr, pow256, run_len, store, stored_some, Bus,
    FetchHandle, FetchIter,
};
use crate::cop::{cop_addr, Cop, Cop0};
use crate::cpu::{
    branched, gpr, reset_view, tick, with_gpr, CpuContext, CtxView, Exception,
};
use crate::isa::{
    add_trap32, add_trap64, alu_imm, alu_special, btgt, btgt_of, checked_add32, checked_add64,
    checked_sub32, checked_sub64, ea, ea_of, funct_of, imm_alu, imm_of, is_imm_alu, is_muldiv,
    is_special_alu, jimm_of, jtgt, jtgt_of, lo32, low32, mul_div, muldiv, op_of, rd_of, rs_of,
    rt_of, sa_of, special_alu, sub_trap32, sub_trap64, Mipsop,
};
use vstd::prelude::*;

verus! {

/// Sign extension of an 8-bit value to 32 bits.
pub open spec fn sext8(x: u32) -> u32 {
    if x < 0x80 {
        x
    } else {
        (x + 0xFFFF_FF00) as u32
    }
}

fn sx8(x: u32) -> (r: u32)
    requires
        x < 0x100,
    ensures
        r == sext8(x),
{
    if x < 0x80 {
        x
    } else {
        x + 0xFFFF_FF00
    }
}

/// Byte shift of the left part of an unaligned word access at `a`.
pub open spec fn shift_l(a: u32) -> u32 {
    ((a & 3) * 8) as u32
}

/// Byte shift of the right part of an unaligned word access at `a`.
pub open spec fn shift_r(a: u32) -> u32 {
    ((!a & 3) * 8) as u32
}

/// LWL: the memory word shifted left into `reg`, keeping `reg`'s low bytes.
pub open spec fn lwl_merge(reg: u32, mem: u32, a: u32) -> u32 {
    let s = shift_l(a);
    let mask = ((1u64 << s) - 1) as u32;
    (reg & mask) | ((mem << s) & !mask)
}

/// LWR: the memory word shifted right into `reg`, keeping `reg`'s high bytes.
pub open spec fn lwr_merge(reg: u32, mem: u32, a: u32) -> u32 {
    let s = shift_r(a);
    let mask = ((1u64 << ((32 - s) as u32)) - 1) as u32;
    (reg & !mask) | ((mem >> s) & mask)
}

/// SWL: `reg` shifted right into the memory word, keeping its high bytes.
pub open spec fn swl_merge(mem: u32, reg: u32, a: u32) -> u32 {
    let s = shift_l(a);
    let mask = ((1u64 << ((32 - s) as u32)) - 1) as u32;
    (mem & !mask) | ((reg >> s) & mask)
}

/// SWR: `reg` shifted left into the memory word, keeping its low bytes.
pub open spec fn swr_merge(mem: u32, reg: u32, a: u32) -> u32 {
    let s = shift_r(a);
    let mask = ((1u64 << s) - 1) as u32;
    (mem & mask) | ((reg << s) & !mask)
}

proof fn lemma_shifts(a: u32)
    ensures
        a & 3 <= 3,
        !a & 3 <= 3,
        shift_l(a) <= 24,
        shift_r(a) <= 24,
        1u64 << shift_l(a) >= 1,
        1u64 << shift_r(a) >= 1,
        1u64 << (32 - shift_l(a)) >= 1,
        1u64 << (32 - shift_r(a)) >= 1,
{
    assert(a & 3 <= 3) by (bit_vector);
    assert(!a & 3 <= 3) by (bit_vector);
    lemma_one_shl(shift_l(a) as u64);
    lemma_one_shl(shift_r(a) as u64);
    lemma_one_shl((32 - shift_l(a)) as u64);
    lemma_one_shl((32 - shift_r(a)) as u64);
}

proof fn lemma_one_shl(s: u64)
    requires
        s <= 32,
    ensures
        1u64 << s >= 1,
{
    assert(s <= 32 ==> 1u64 << s >= 1) by (bit_vector);
}

/// What executing one instruction does.
pub enum Effect {
    /// The context becomes this one; memory is untouched.
    Regs(CtxView),
    /// The context becomes this one, and the low `n` bytes of the value
    /// are stored big-endian at the physical address.
    Store(CtxView, int, nat, nat),
    /// A coprocessor instruction for the slot.
    CopOp(int),
    /// A coprocessor load (LWCz/LDCz) for the slot.
    CopLoad(int),
    /// A coprocessor store (SWCz/SDCz) from the slot of `n` bytes at the
    /// physical address.
    CopStore(int, int, nat),
    /// The exception is raised through Cop0.
    Trap(Exception),
}

/// `c` with the return address (PC + 4) in register 31.
pub open spec fn link31(c: CtxView) -> CtxView {
    with_gpr(c, 31, wrap32(c.pc + 4) as u64)
}

/// Condition of BEQ, BNE, BLEZ, BGTZ and their likely forms, by the low two
/// bits of the opcode.
pub open spec fn branch_cond(kind: u32, rs: u64, rt: u64) -> bool {
    if kind == 0 {
        rs == rt
    } else if kind == 1 {
        rs != rt
    } else if kind == 2 {
        crate::arith::s64(rs) <= 0
    } else {
        crate::arith::s64(rs) > 0
    }
}

/// Whether `r` is a REGIMM branch: BLTZ, BGEZ, their likely forms, and the
/// four that link.
pub open spec fn is_regimm(r: u32) -> bool {
    r <= 3 || (0x10 <= r <= 0x13)
}

/// The SPECIAL instruction `w` on the context `t`, whose clock has already
/// been advanced.
pub open spec fn special_step(t: CtxView, w: u32) -> Effect {
    let f = funct_of(w);
    let rd = rd_of(w) as int;
    let rsv = gpr(t, rs_of(w) as int);
    let rtv = gpr(t, rt_of(w) as int);
    if is_special_alu(f) {
        Effect::Regs(with_gpr(t, rd, special_alu(f, sa_of(w), rsv, rtv)))
    } else if f == 0x08 {
        Effect::Regs(branched(t, true, lo32(rsv), true))
    } else if f == 0x09 {
        let c = link31(t);
        Effect::Regs(branched(c, true, lo32(gpr(c, rs_of(w) as int)), true))
    } else if f == 0x0D {
        Effect::Trap(Exception::BP)
    } else if f == 0x0F {
        Effect::Regs(t)
    } else if f == 0x10 {
        Effect::Regs(with_gpr(t, rd, t.hi))
    } else if f == 0x11 {
        Effect::Regs(CtxView { hi: rsv, ..t })
    } else if f == 0x12 {
        Effect::Regs(with_gpr(t, rd, t.lo))
    } else if f == 0x13 {
        Effect::Regs(CtxView { lo: rsv, ..t })
    } else if is_muldiv(f) {
        Effect::Regs(CtxView { hi: muldiv(f, rsv, rtv).0, lo: muldiv(f, rsv, rtv).1, ..t })
    } else if f == 0x20 || f == 0x22 || f == 0x2C || f == 0x2E {
        let r = if f == 0x20 {
            add_trap32(rsv, rtv)
        } else if f == 0x22 {
            sub_trap32(rsv, rtv)
        } else if f == 0x2C {
            add_trap64(rsv, rtv)
        } else {
            sub_trap64(rsv, rtv)
        };
        match r {
            Some(x) => Effect::Regs(with_gpr(t, rd, x)),
            None => Effect::Trap(Exception::OV),
        }
    } else {
        Effect::Trap(Exception::RI)
    }
}

/// The REGIMM instruction `w` on `t`.
pub open spec fn regimm_step(t: CtxView, w: u32) -> Effect {
    let r = rt_of(w);
    if is_regimm(r) {
        let c = if r >= 0x10 {
            link31(t)
        } else {
            t
        };
        let x = crate::arith::s64(gpr(c, rs_of(w) as int));
        let cond = if r % 2 == 0 {
            x < 0
        } else {
            x >= 0
        };
        Effect::Regs(branched(c, cond, btgt_of(t.pc, imm_of(w)), r % 4 >= 2))
    } else {
        Effect::Trap(Exception::RI)
    }
}

/// The value that the load `o` at address `a` puts in register `rt`.
pub open spec fn loaded(o: u32, ram: Seq<u8>, rom: Seq<u8>, a: u32, rtv: u64) -> u64 {
    let w = load_from(ram, rom, phys(a, 4) as int, 4) as u32;
    if o == 0x20 {
        sext32(sext8(load_from(ram, rom, phys(a, 1) as int, 1) as u32))
    } else if o == 0x21 {
        sext32(sext16(load_from(ram, rom, phys(a, 2) as int, 2) as u32))
    } else if o == 0x22 {
        sext32(lwl_merge(lo32(rtv), w, a))
    } else if o == 0x23 {
        sext32(w)
    } else if o == 0x24 {
        load_from(ram, rom, phys(a, 1) as int, 1) as u64
    } else if o == 0x25 {
        load_from(ram, rom, phys(a, 2) as int, 2) as u64
    } else if o == 0x26 {
        sext32(lwr_merge(lo32(rtv), w, a))
    } else if o == 0x27 {
        w as u64
    } else {
        load_from(ram, rom, phys(a, 8) as int, 8) as u64
    }
}

pub open spec fn is_load(o: u32) -> bool {
    (0x20 <= o <= 0x27) || o == 0x37
}

pub open spec fn is_store(o: u32) -> bool {
    (0x28 <= o <= 0x2B) || o == 0x2E || o == 0x3F
}

/// The store `o` at address `a` on `t`.
pub open spec fn store_step(
    t: CtxView,
    o: u32,
    ram: Seq<u8>,
    rom: Seq<u8>,
    a: u32,
    rtv: u64,
) -> Effect {
    let w = load_from(ram, rom, phys(a, 4) as int, 4) as u32;
    if o == 0x28 {
        Effect::Store(t, phys(a, 1) as int, 1, rtv as nat)
    } else if o == 0x29 {
        Effect::Store(t, phys(a, 2) as int, 2, rtv as nat)
    } else if o == 0x2A {
        Effect::Store(t, phys(a, 4) as int, 4, swl_merge(w, lo32(rtv), a) as nat)
    } else if o == 0x2B {
        Effect::Store(t, phys(a, 4) as int, 4, rtv as nat)
    } else if o == 0x2E {
        Effect::Store(t, phys(a, 4) as int, 4, swr_merge(w, lo32(rtv), a) as nat)
    } else {
        Effect::Store(t, phys(a, 8) as int, 8, rtv as nat)
    }
}

/// J and JAL.
pub open spec fn jump_step(t: CtxView, w: u32) -> Effect {
    let c = if op_of(w) == 0x03 {
        link31(t)
    } else {
        t
    };
    Effect::Regs(branched(c, true, jtgt_of(t.pc, jimm_of(w)), true))
}

/// BEQ, BNE, BLEZ, BGTZ and their likely forms.
pub open spec fn branch_step(t: CtxView, w: u32) -> Effect {
    let o = op_of(w);
    Effect::Regs(
        branched(
            t,
            branch_cond(o % 4, gpr(t, rs_of(w) as int), gpr(t, rt_of(w) as int)),
            btgt_of(t.pc, imm_of(w)),
            o >= 0x14,
        ),
    )
}

/// The immediate arithmetic instructions, ADDI and DADDI trapping on
/// overflow.
pub open spec fn imm_step(t: CtxView, w: u32) -> Effect {
    let o = op_of(w);
    let rt = rt_of(w) as int;
    let rsv = gpr(t, rs_of(w) as int);
    let imm = imm_of(w);
    if o == 0x08 || o == 0x18 {
        let r = if o == 0x08 {
            add_trap32(rsv, sext16(imm) as u64)
        } else {
            add_trap64(rsv, sext32(sext16(imm)))
        };
        match r {
            Some(x) => Effect::Regs(with_gpr(t, rt, x)),
            None => Effect::Trap(Exception::OV),
        }
    } else {
        Effect::Regs(with_gpr(t, rt, imm_alu(o, rsv, imm)))
    }
}

/// The coprocessor loads and stores at address `a`.
pub open spec fn cop_mem_step(o: u32, a: u32) -> Effect {
    if o == 0x31 || o == 0x35 {
        Effect::CopLoad(1)
    } else if o == 0x32 || o == 0x36 {
        Effect::CopLoad(2)
    } else if o == 0x39 || o == 0x3A {
        Effect::CopStore(o - 0x38, phys(a, 4) as int, 4)
    } else {
        Effect::CopStore(o - 0x3C, phys(a, 8) as int, 8)
    }
}

pub open spec fn is_cop_mem(o: u32) -> bool {
    o == 0x31 || o == 0x32 || o == 0x35 || o == 0x36 || o == 0x39 || o == 0x3A || o == 0x3D || o
        == 0x3E
}

/// What the instruction word `w` does on the context `v` (whose PC is
/// already past `w`), with RAM `ram` and ROM `rom`. Each instruction takes
/// one cycle.
pub open spec fn step(v: CtxView, ram: Seq<u8>, rom: Seq<u8>, w: u32) -> Effect {
    let t = tick(v);
    let o = op_of(w);
    let rsv = gpr(v, rs_of(w) as int);
    let rtv = gpr(v, rt_of(w) as int);
    let a = ea_of(rsv, imm_of(w));
    if o == 0x00 {
        special_step(t, w)
    } else if o == 0x01 {
        regimm_step(t, w)
    } else if o == 0x02 || o == 0x03 {
        jump_step(t, w)
    } else if (0x04 <= o <= 0x07) || (0x14 <= o <= 0x17) {
        branch_step(t, w)
    } else if o == 0x08 || o == 0x18 || is_imm_alu(o) {
        imm_step(t, w)
    } else if 0x10 <= o <= 0x13 {
        Effect::CopOp(o - 0x10)
    } else if is_load(o) {
        Effect::Regs(with_gpr(t, rt_of(w) as int, loaded(o, ram, rom, a, rtv)))
    } else if is_store(o) {
        store_step(t, o, ram, rom, a, rtv)
    } else if o == 0x2F {
        Effect::Regs(t)
    } else if is_cop_mem(o) {
        cop_mem_step(o, a)
    } else {
        Effect::Trap(Exception::RI)
    }
}

/// SWCz (`n` 4) or SDCz (`n` 8) through the coprocessor `c`.
fn cop_store<C: Cop>(c: &mut C, opcode: u32, ctx: &CpuContext, bus: &mut Bus, n: u32)
    requires
        n == 4 || n == 8,
    ensures
        final(bus).rom@ == old(bus).rom@,
        stored_some(old(bus).ram@, cop_addr(ctx@, opcode, n) as int, n as nat, final(bus).ram@),
{
    if n == 8 {
        c.sdc(opcode, ctx, bus);
    } else {
        c.swc(opcode, ctx, bus);
    }
}

/// LWCz (`wide` false) or LDCz (`wide` true) through the coprocessor `c`.
fn cop_load<C: Cop>(c: &mut C, opcode: u32, ctx: &CpuContext, bus: &Bus, wide: bool) {
    if wide {
        c.ldc(opcode, ctx, bus);
    } else {
        c.lwc(opcode, ctx, bus);
    }
}

/// `c` once its delay slot has run: a pending branch moves the PC to its
/// target and is cleared.
pub open spec fn finish(c: CtxView) -> CtxView {
    if c.branch_pc != 0 {
        CtxView { pc: c.branch_pc, branch_pc: 0, ..c }
    } else {
        c
    }
}

/// Context and RAM after the word `w` runs on `v` on a CPU without
/// coprocessors: traps and coprocessor instructions then only take their cycle.
#[verifier::opaque]
pub open spec fn exec_plain(v: CtxView, ram: Seq<u8>, rom: Seq<u8>, w: u32) -> (CtxView, Seq<u8>) {
    match step(v, ram, rom, w) {
        Effect::Regs(c) => (c, ram),
        Effect::Store(c, a, n, x) => (c, store(ram, a, n, x)),
        _ => (tick(v), ram),
    }
}

/// A straight-line run on a CPU without coprocessors: up to `left` words
/// from the physical address `addr`, each read when its turn comes, with
/// the PC moved past each before it runs. The run stops after a word that
/// reaches `until` or asks to leave the run. Gives the context, the RAM,
/// and where the run stopped.
pub open spec fn tight(
    v: CtxView,
    ram: Seq<u8>,
    rom: Seq<u8>,
    addr: int,
    left: nat,
    until: int,
) -> (CtxView, Seq<u8>, int, nat)
    decreases left,
{
    if left == 0 {
        (v, ram, addr, 0)
    } else {
        let w = load_from(ram, rom, addr, 4) as u32;
        let r = exec_plain(CtxView { pc: wrap32(v.pc + 4), ..v }, ram, rom, w);
        if r.0.clock >= until || r.0.tight_exit {
            (r.0, r.1, addr + 4, (left - 1) as nat)
        } else {
            tight(r.0, r.1, rom, addr + 4, (left - 1) as nat, until)
        }
    }
}

/// One round of the run loop on a CPU without coprocessors: a straight-line
/// run from the PC, then, where a branch is pending, its delay slot (the
/// next word of the run, or the word at the PC when the run is used up)
/// and the branch itself.
#[verifier::opaque]
pub open spec fn round_to(v: CtxView, ram: Seq<u8>, rom: Seq<u8>, until: int) -> (CtxView, Seq<u8>) {
    let a = phys(v.pc, 4) as int;
    let t = tight(
        CtxView { tight_exit: false, ..v },
        ram,
        rom,
        a,
        run_len(ram.len(), rom.len(), a),
        until,
    );
    if t.0.branch_pc != 0 {
        let w = if t.3 > 0 {
            load_from(t.1, rom, t.2, 4) as u32
        } else {
            load_from(t.1, rom, phys(t.0.pc, 4) as int, 4) as u32
        };
        let d = exec_plain(t.0, t.1, rom, w);
        (finish(d.0), d.1)
    } else {
        (t.0, t.1)
    }
}

/// Context and RAM after `run(until)` on a CPU without coprocessors: rounds
/// until the clock reaches `until`.
pub open spec fn run_to(v: CtxView, ram: Seq<u8>, rom: Seq<u8>, until: int) -> (CtxView, Seq<u8>)
    decreases (if v.clock < until {
        until - v.clock
    } else {
        0
    }),
{
    if v.clock >= until {
        (v, ram)
    } else {
        let r = round_to(v, ram, rom, until);
        if r.0.clock > v.clock {
            run_to(r.0, r.1, rom, until)
        } else {
            r
        }
    }
}

/// A MIPS64 CPU: its context, up to four coprocessors, and the bus it
/// executes from.
pub struct Cpu<C0: Cop0, C1: Cop, C2: Cop, C3: Cop> {
    pub ctx: CpuContext,
    pub cop0: Option<C0>,
    pub cop1: Option<C1>,
    pub cop2: Option<C2>,
    pub cop3: Option<C3>,
    pub bus: Bus,
    pub until: i64,
    /// Word address of the last fetch, and the run it returned.
    pub last_fetch_addr: u32,
    pub last_fetch_mem: FetchHandle,
}

impl<C0: Cop0, C1: Cop, C2: Cop, C3: Cop> Cpu<C0, C1, C2, C3> {
    pub open spec fn wf(&self) -> bool {
        &&& self.bus.wf()
        &&& self.last_fetch_mem.wf()
        &&& self.last_fetch_mem.words >= 1
        &&& self.last_fetch_mem.base == phys(self.last_fetch_addr, 4)
        &&& self.last_fetch_mem.words == run_len(
            self.bus.ram@.len(),
            self.bus.rom@.len(),
            self.last_fetch_mem.base as int,
        )
    }

    /// No coprocessor is installed.
    pub open spec fn no_cops(&self) -> bool {
        !self.present(0) && !self.present(1) && !self.present(2) && !self.present(3)
    }

    /// Only the fetch cache may differ.
    pub open spec fn same_but_fetch(&self, new: &Self) -> bool {
        &&& new.ctx == self.ctx
        &&& new.bus.ram@ == self.bus.ram@
        &&& new.bus.rom@ == self.bus.rom@
        &&& self.same_cops(new)
        &&& new.until == self.until
    }

    /// Whether coprocessor slot `i` is filled.
    pub open spec fn present(&self, i: int) -> bool {
        if i == 0 {
            self.cop0 is Some
        } else if i == 1 {
            self.cop1 is Some
        } else if i == 2 {
            self.cop2 is Some
        } else {
            self.cop3 is Some
        }
    }

    /// Everything but the context, the RAM and the coprocessors is kept.
    pub open spec fn frame(&self, new: &Self) -> bool {
        &&& new.bus.rom@ == self.bus.rom@
        &&& new.bus.ram@.len() == self.bus.ram@.len()
        &&& new.until == self.until
        &&& new.last_fetch_addr == self.last_fetch_addr
        &&& new.last_fetch_mem == self.last_fetch_mem
        &&& new.present(0) == self.present(0)
        &&& new.present(1) == self.present(1)
        &&& new.present(2) == self.present(2)
        &&& new.present(3) == self.present(3)
    }

    /// The coprocessors are unchanged.
    pub open spec fn same_cops(&self, new: &Self) -> bool {
        &&& new.cop0 == self.cop0
        &&& new.cop1 == self.cop1
        &&& new.cop2 == self.cop2
        &&& new.cop3 == self.cop3
    }

    /// `new` is `self` after an instruction with effect `e`, where `base` is
    /// the context that the instruction leaves when nothing else acts on it.
    pub open spec fn effect_holds(&self, new: &Self, base: CtxView, e: Effect) -> bool {
        &&& self.frame(new)
        &&& match e {
            Effect::Regs(c) => new.ctx@ == c && new.bus.ram@ == self.bus.ram@ && self.same_cops(
                new,
            ),
            Effect::Store(c, a, n, x) => new.ctx@ == c && new.bus.ram@ == store(
                self.bus.ram@,
                a,
                n,
                x,
            ) && self.same_cops(new),
            Effect::Trap(_) => new.bus.ram@ == self.bus.ram@ && new.ctx@.clock == base.clock && (
            !self.present(0) ==> new.ctx@ == base && self.same_cops(new)),
            Effect::CopOp(i) => new.bus.ram@ == self.bus.ram@ && new.ctx@.clock == base.clock && (
            !self.present(i) ==> new.ctx@ == base && self.same_cops(new)),
            Effect::CopLoad(i) => new.bus.ram@ == self.bus.ram@ && new.ctx@ == base,
            Effect::CopStore(i, a, n) => new.ctx@ == base && (!self.present(i) ==> new.bus.ram@
                == self.bus.ram@) && (self.present(i) ==> stored_some(self.bus.ram@, a, n, new.bus.ram@)),
        }
    }

    /// A CPU in its reset state on `bus`, with no coprocessor installed.
    pub fn new(bus: Bus) -> (r: Self)
        requires
            bus.wf(),
        ensures
            r.wf(),
            r.ctx@ == reset_view(),
            r.cop0 is None && r.cop1 is None && r.cop2 is None && r.cop3 is None,
            r.bus == bus,
            r.last_fetch_addr == 0xFFFF_FFFF,
    {
        proof {
            assert(0xFFFF_FFFFu32 & 0x1FFF_FFFC == 0x1FFF_FFFC) by (bit_vector);
        }
        Cpu {
            ctx: CpuContext::new(),
            cop0: None,
            cop1: None,
            cop2: None,
            cop3: None,
            bus,
            until: 0,
            // no fetch yet; the cached run is the one that address would give
            last_fetch_addr: 0xFFFF_FFFF,
            last_fetch_mem: FetchHandle { base: 0x1FFF_FFFC, words: 1 },
        }
    }

    pub fn ctx(&self) -> (r: &CpuContext)
        ensures
            *r == self.ctx,
    {
        &self.ctx
    }

    pub fn ctx_mut(&mut self) -> (r: &mut CpuContext)
        ensures
            *r == old(self).ctx,
            final(self).ctx == *final(r),
            final(self).bus == old(self).bus,
            old(self).same_cops(final(self)),
            final(self).until == old(self).until,
            final(self).last_fetch_addr == old(self).last_fetch_addr,
            final(self).last_fetch_mem == old(self).last_fetch_mem,
    {
        &mut self.ctx
    }

    pub fn set_cop0(&mut self, cop0: C0)
        ensures
            final(self).cop0 == Some(cop0),
            *final(self) == (Cpu { cop0: Some(cop0), ..*old(self) }),
    {
        self.cop0 = Some(cop0);
    }

    pub fn set_cop1(&mut self, cop1: C1)
        ensures
            *final(self) == (Cpu { cop1: Some(cop1), ..*old(self) }),
    {
        self.cop1 = Some(cop1);
    }

    pub fn set_cop2(&mut self, cop2: C2)
        ensures
            *final(self) == (Cpu { cop2: Some(cop2), ..*old(self) }),
    {
        self.cop2 = Some(cop2);
    }

    pub fn set_cop3(&mut self, cop3: C3)
        ensures
            *final(self) == (Cpu { cop3: Some(cop3), ..*old(self) }),
    {
        self.cop3 = Some(cop3);
    }

    /// Coprocessor 2, if installed.
    pub fn cop2(&mut self) -> (r: Option<&mut C2>)
        ensures
            r is Some <==> old(self).cop2 is Some,
    {
        match &mut self.cop2 {
            Some(c) => Some(c),
            None => None,
        }
    }

    /// Enters the reset exception through Cop0.
    pub fn reset(&mut self)
        ensures
            old(self).frame(final(self)),
            final(self).bus.ram@ == old(self).bus.ram@,
            final(self).ctx.clock == old(self).ctx.clock,
            !old(self).present(0) ==> final(self).ctx@ == old(self).ctx@ && old(self).same_cops(
                final(self),
            ),
    {
        self.exception(Exception::RESET);
    }

    /// The cycle count, for a scheduler that runs several subsystems side by
    /// side.
    pub fn cycles(&self) -> (r: i64)
        ensures
            r == self.ctx.clock,
    {
        self.ctx.clock
    }

    /// On a CPU without coprocessors an instruction's effect is `exec_plain`.
    proof fn lemma_plain(&self, new: &Self, w: u32)
        requires
            self.no_cops(),
            self.effect_holds(new, tick(self.ctx@), step(self.ctx@, self.bus.ram@, self.bus.rom@, w)),
        ensures
            new.no_cops(),
            (new.ctx@, new.bus.ram@) == exec_plain(self.ctx@, self.bus.ram@, self.bus.rom@, w),
    {
        reveal(exec_plain);
        crate::isa::lemma_fields(w);
    }

    /// Raises `exc` through Cop0; without one it is ignored.
    fn exception(&mut self, exc: Exception)
        ensures
            old(self).frame(final(self)),
            final(self).bus.ram@ == old(self).bus.ram@,
            final(self).ctx.clock == old(self).ctx.clock,
            !old(self).present(0) ==> final(self).ctx@ == old(self).ctx@ && old(self).same_cops(
                final(self),
            ),
            final(self).cop1 == old(self).cop1,
            final(self).cop2 == old(self).cop2,
            final(self).cop3 == old(self).cop3,
    {
        match &mut self.cop0 {
            Some(c) => c.exception(&mut self.ctx, exc),
            None => {},
        }
    }

    /// Reads `n` bytes at `addr`, masked to the physical window and aligned
    /// to the access width.
    fn read(&self, addr: u32, n: u32) -> (r: u64)
        requires
            n == 1 || n == 2 || n == 4 || n == 8,
        ensures
            r == load_from(self.bus.ram@, self.bus.rom@, phys(addr, n) as int, n as nat),
            r < pow256(n as nat),
    {
        let a = phys_addr(addr, n);
        proof {
            self.bus.lemma_load_bound(a as int, n as nat);
        }
        self.bus.read(a, n)
    }

    /// Writes the low `n` bytes of `val` at `addr`, masked and aligned as
    /// for `read`.
    fn write(&mut self, addr: u32, n: u32, val: u64)
        requires
            n == 1 || n == 2 || n == 4 || n == 8,
        ensures
            final(self).bus.ram@ == store(
                old(self).bus.ram@,
                phys(addr, n) as int,
                n as nat,
                val as nat,
            ),
            final(self).bus.rom@ == old(self).bus.rom@,
            final(self).bus.ram@.len() == old(self).bus.ram@.len(),
            final(self).ctx == old(self).ctx,
            old(self).same_cops(final(self)),
            final(self).until == old(self).until,
            final(self).last_fetch_addr == old(self).last_fetch_addr,
            final(self).last_fetch_mem == old(self).last_fetch_mem,
    {
        let a = phys_addr(addr, n);
        self.bus.write(a, n, val);
    }

    fn trap_overflow(&mut self)
        ensures
            old(self).frame(final(self)),
            final(self).bus.ram@ == old(self).bus.ram@,
            final(self).ctx.clock == old(self).ctx.clock,
            !old(self).present(0) ==> final(self).ctx@ == old(self).ctx@ && old(self).same_cops(
                final(self),
            ),
    {
        self.exception(Exception::OV);
    }

    /// Executes the SPECIAL instruction `m`; the clock has already been
    /// advanced.
    fn op_special(&mut self, m: Mipsop)
        requires
            old(self).wf(),
        ensures
            final(self).wf(),
            old(self).effect_holds(final(self), old(self).ctx@, special_step(old(self).ctx@, m.opcode)),
    {
        let f = m.special();
        let rd = m.rd();
        let rs = self.ctx.gpr(m.rs());
        let rt = self.ctx.gpr(m.rt());
        if (f <= 0x07 && f != 0x01 && f != 0x05) || f == 0x14 || f == 0x16 || f == 0x17 || f == 0x21
            || f == 0x23 || (0x24 <= f && f <= 0x27) || f == 0x2A || f == 0x2B || f == 0x2D || f
            == 0x2F || f == 0x38 || f == 0x3A || f == 0x3B || f == 0x3C || f == 0x3E || f == 0x3F {
            let v = alu_special(f, m.sa(), rs, rt);
            self.ctx.set_gpr(rd, v);
        } else if f == 0x08 {
            // JR
            self.ctx.branch(true, low32(rs), true);
        } else if f == 0x09 {
            // JALR
            let link = crate::arith::add32(self.ctx.pc, 4) as u64;
            self.ctx.set_gpr(31, link);
            let tgt = low32(self.ctx.gpr(m.rs()));
            self.ctx.branch(true, tgt, true);
        } else if f == 0x0D {
            // BREAK
            self.exception(Exception::BP);
        } else if f == 0x0F {
            // SYNC
        } else if f == 0x10 {
            let hi = self.ctx.hi;
            self.ctx.set_gpr(rd, hi);
        } else if f == 0x11 {
            self.ctx.hi = rs;
        } else if f == 0x12 {
            let lo = self.ctx.lo;
            self.ctx.set_gpr(rd, lo);
        } else if f == 0x13 {
            self.ctx.lo = rs;
        } else if 0x18 <= f && f <= 0x1F {
            let (hi, lo) = mul_div(f, rs, rt);
            self.ctx.hi = hi;
            self.ctx.lo = lo;
        } else if f == 0x20 || f == 0x22 || f == 0x2C || f == 0x2E {
            let r = if f == 0x20 {
                checked_add32(rs, rt)
            } else if f == 0x22 {
                checked_sub32(rs, rt)
            } else if f == 0x2C {
                checked_add64(rs, rt)
            } else {
                checked_sub64(rs, rt)
            };
            match r {
                Some(x) => self.ctx.set_gpr(rd, x),
                None => self.trap_overflow(),
            }
        } else {
            self.exception(Exception::RI);
        }
    }

    /// Executes the REGIMM instruction `m`; the clock has already been
    /// advanced.
    fn op_regimm(&mut self, m: Mipsop)
        requires
            old(self).wf(),
            old(self).ctx.clock < i64::MAX,
        ensures
            final(self).wf(),
            old(self).effect_holds(final(self), old(self).ctx@, regimm_step(old(self).ctx@, m.opcode)),
    {
        let r = m.rt() as u32;
        if r <= 3 || (0x10 <= r && r <= 0x13) {
            let tgt = btgt(self.ctx.pc, m.imm());
            if r >= 0x10 {
                let link = crate::arith::add32(self.ctx.pc, 4) as u64;
                self.ctx.set_gpr(31, link);
            }
            let x = crate::arith::signed64(self.ctx.gpr(m.rs()));
            let cond = if r % 2 == 0 {
                x < 0
            } else {
                x >= 0
            };
            self.ctx.branch(cond, tgt, r % 4 >= 2);
        } else {
            self.exception(Exception::RI);
        }
    }

    /// Executes the load `m` with primary opcode `o`.
    fn op_load(&mut self, m: Mipsop, o: u32)
        requires
            old(self).wf(),
            is_load(o),
            o == op_of(m.opcode),
        ensures
            final(self).wf(),
            old(self).effect_holds(final(self), old(self).ctx@, Effect::Regs(with_gpr(old(self).ctx@,
                rt_of(m.opcode) as int, loaded(o, old(self).bus.ram@, old(self).bus.rom@, ea_of(
                gpr(old(self).ctx@, rs_of(m.opcode) as int), imm_of(m.opcode)), gpr(old(self).ctx@,
                rt_of(m.opcode) as int))))),
    {
        let a = ea(self.ctx.gpr(m.rs()), m.imm());
        let rt = m.rt();
        let rtv = self.ctx.gpr(rt);
        proof {
            reveal_with_fuel(pow256, 9);
        }
        let v: u64 = if o == 0x20 {
            sx64(sx8(self.read(a, 1) as u32))
        } else if o == 0x21 {
            sx64(sx16(self.read(a, 2) as u32))
        } else if o == 0x22 {
            sx64(self.lwl(a, low32(rtv)))
        } else if o == 0x23 {
            sx64(self.read_word(a))
        } else if o == 0x24 {
            self.read(a, 1)
        } else if o == 0x25 {
            self.read(a, 2)
        } else if o == 0x26 {
            sx64(self.lwr(a, low32(rtv)))
        } else if o == 0x27 {
            self.read_word(a) as u64
        } else {
            self.read(a, 8)
        };
        self.ctx.set_gpr(rt, v);
    }

    /// Executes the store `m` with primary opcode `o`.
    fn op_store(&mut self, m: Mipsop, o: u32)
        requires
            old(self).wf(),
            is_store(o),
            o == op_of(m.opcode),
        ensures
            final(self).wf(),
            old(self).effect_holds(final(self), old(self).ctx@, store_step(old(self).ctx@, o, old(
                self).bus.ram@, old(self).bus.rom@, ea_of(gpr(old(self).ctx@, rs_of(m.opcode) as int),
                imm_of(m.opcode)), gpr(old(self).ctx@, rt_of(m.opcode) as int))),
    {
        let a = ea(self.ctx.gpr(m.rs()), m.imm());
        let rtv = self.ctx.gpr(m.rt());
        if o == 0x28 {
            self.write(a, 1, rtv);
        } else if o == 0x29 {
            self.write(a, 2, rtv);
        } else if o == 0x2A {
            let v = self.swl(a, low32(rtv));
            self.write(a, 4, v as u64);
        } else if o == 0x2B {
            self.write(a, 4, rtv);
        } else if o == 0x2E {
            let v = self.swr(a, low32(rtv));
            self.write(a, 4, v as u64);
        } else {
            self.write(a, 8, rtv);
        }
    }

    /// Executes the instruction word `opcode`, whose address the PC has
    /// already moved past.
    #[verifier::rlimit(50)]
    pub fn op(&mut self, opcode: u32)
        requires
            old(self).wf(),
            old(self).ctx.clock < i64::MAX - 1,
        ensures
            final(self).wf(),
            old(self).effect_holds(
                final(self),
                tick(old(self).ctx@),
                step(old(self).ctx@, old(self).bus.ram@, old(self).bus.rom@, opcode),
            ),
            old(self).ctx.clock + 1 <= final(self).ctx.clock <= old(self).ctx.clock + 2,
            old(self).no_cops() ==> final(self).no_cops() && (final(self).ctx@, final(self).bus.ram@)
                == exec_plain(old(self).ctx@, old(self).bus.ram@, old(self).bus.rom@, opcode),
    {
        self.ctx.clock = self.ctx.clock + 1;
        let m = Mipsop { opcode };
        let o = m.op();
        if o == 0x00 {
            self.op_special(m);
        } else if o == 0x01 {
            self.op_regimm(m);
        } else if o == 0x02 || o == 0x03 {
            self.op_jump(m);
        } else if (0x04 <= o && o <= 0x07) || (0x14 <= o && o <= 0x17) {
            self.op_branch(m);
        } else if o == 0x08 || o == 0x18 || o == 0x09 || (0x0A <= o && o <= 0x0F) || o == 0x19 {
            self.op_imm(m);
        } else if 0x10 <= o && o <= 0x13 {
            self.op_cop(m);
        } else if (0x20 <= o && o <= 0x27) || o == 0x37 {
            self.op_load(m, o);
        } else if (0x28 <= o && o <= 0x2B) || o == 0x2E || o == 0x3F {
            self.op_store(m, o);
        } else if o == 0x2F {
            // CACHE
        } else if o == 0x31 || o == 0x32 || o == 0x35 || o == 0x36 || o == 0x39 || o == 0x3A || o
            == 0x3D || o == 0x3E {
            self.op_cop_mem(m, o);
        } else {
            self.exception(Exception::RI);
        }
        proof {
            if old(self).no_cops() {
                old(self).lemma_plain(self, opcode);
            }
        }
    }

    /// J and JAL.
    fn op_jump(&mut self, m: Mipsop)
        requires
            old(self).wf(),
            op_of(m.opcode) == 0x02 || op_of(m.opcode) == 0x03,
        ensures
            final(self).wf(),
            old(self).effect_holds(final(self), old(self).ctx@, jump_step(old(self).ctx@, m.opcode)),
    {
        let tgt = jtgt(self.ctx.pc, m.jimm());
        if m.op() == 0x03 {
            let link = crate::arith::add32(self.ctx.pc, 4) as u64;
            self.ctx.set_gpr(31, link);
        }
        self.ctx.branch(true, tgt, true);
    }

    /// BEQ, BNE, BLEZ, BGTZ and their likely forms.
    fn op_branch(&mut self, m: Mipsop)
        requires
            old(self).wf(),
            old(self).ctx.clock < i64::MAX,
        ensures
            final(self).wf(),
            old(self).effect_holds(final(self), old(self).ctx@, branch_step(old(self).ctx@, m.opcode)),
    {
        let o = m.op();
        let rsv = self.ctx.gpr(m.rs());
        let rtv = self.ctx.gpr(m.rt());
        let kind = o % 4;
        let cond = if kind == 0 {
            rsv == rtv
        } else if kind == 1 {
            rsv != rtv
        } else if kind == 2 {
            crate::arith::signed64(rsv) <= 0
        } else {
            crate::arith::signed64(rsv) > 0
        };
        let tgt = btgt(self.ctx.pc, m.imm());
        self.ctx.branch(cond, tgt, o >= 0x14);
    }

    /// Immediate arithmetic: ADDI and DADDI trap on overflow.
    fn op_imm(&mut self, m: Mipsop)
        requires
            old(self).wf(),
            op_of(m.opcode) == 0x08 || op_of(m.opcode) == 0x18 || is_imm_alu(op_of(m.opcode)),
        ensures
            final(self).wf(),
            old(self).effect_holds(final(self), old(self).ctx@, imm_step(old(self).ctx@, m.opcode)),
    {
        let o = m.op();
        let rt = m.rt();
        let rsv = self.ctx.gpr(m.rs());
        let imm = m.imm();
        if o == 0x08 || o == 0x18 {
            let r = if o == 0x08 {
                checked_add32(rsv, sx16(imm) as u64)
            } else {
                checked_add64(rsv, sx64(sx16(imm)))
            };
            match r {
                Some(x) => self.ctx.set_gpr(rt, x),
                None => self.trap_overflow(),
            }
        } else {
            let v = alu_imm(o, rsv, imm);
            self.ctx.set_gpr(rt, v);
        }
    }

    /// COP0..COP3: handed to the coprocessor, or ignored without one.
    fn op_cop(&mut self, m: Mipsop)
        requires
            old(self).wf(),
            0x10 <= op_of(m.opcode) <= 0x13,
        ensures
            final(self).wf(),
            old(self).effect_holds(
                final(self),
                old(self).ctx@,
                Effect::CopOp(op_of(m.opcode) - 0x10),
            ),
    {
        let o = m.op();
        let opcode = m.opcode;
        if o == 0x10 {
            match &mut self.cop0 {
                Some(c) => c.op(&mut self.ctx, opcode),
                None => {},
            }
        } else if o == 0x11 {
            match &mut self.cop1 {
                Some(c) => c.op(&mut self.ctx, opcode),
                None => {},
            }
        } else if o == 0x12 {
            match &mut self.cop2 {
                Some(c) => c.op(&mut self.ctx, opcode),
                None => {},
            }
        } else {
            match &mut self.cop3 {
                Some(c) => c.op(&mut self.ctx, opcode),
                None => {},
            }
        }
    }

    /// LWCz, LDCz, SWCz and SDCz for coprocessors 1 and 2.
    fn op_cop_mem(&mut self, m: Mipsop, o: u32)
        requires
            old(self).wf(),
            is_cop_mem(o),
            o == op_of(m.opcode),
        ensures
            final(self).wf(),
            old(self).effect_holds(final(self), old(self).ctx@, cop_mem_step(o, ea_of(gpr(old(self).ctx@,
                rs_of(m.opcode) as int), imm_of(m.opcode)))),
    {
        let opcode = m.opcode;
        let wide = o == 0x35 || o == 0x36 || o == 0x3D || o == 0x3E;
        let ghost ram0 = self.bus.ram@;
        if o == 0x31 || o == 0x35 {
            match &mut self.cop1 {
                Some(c) => cop_load(c, opcode, &self.ctx, &self.bus, wide),
                None => {},
            }
        } else if o == 0x32 || o == 0x36 {
            match &mut self.cop2 {
                Some(c) => cop_load(c, opcode, &self.ctx, &self.bus, wide),
                None => {},
            }
        } else {
            let n: u32 = if wide {
                8
            } else {
                4
            };
            if o == 0x39 || o == 0x3D {
                match &mut self.cop1 {
                    Some(c) => cop_store(c, opcode, &self.ctx, &mut self.bus, n),
                    None => {},
                }
            } else {
                match &mut self.cop2 {
                    Some(c) => cop_store(c, opcode, &self.ctx, &mut self.bus, n),
                    None => {},
                }
            }
            proof {
                lemma_store_len_any(ram0);
            }
        }
    }

    /// The run of instruction words at `addr`. A fetch of the same address
    /// as the last one hands back the cached run without asking the bus.
    pub fn fetch(&mut self, addr: u32) -> (r: FetchHandle)
        requires
            old(self).wf(),
        ensures
            final(self).wf(),
            r.wf(),
            r == final(self).last_fetch_mem,
            final(self).last_fetch_addr == addr,
            old(self).same_but_fetch(final(self)),
            old(self).last_fetch_addr == addr ==> r == old(self).last_fetch_mem,
            r.base == phys(addr, 4),
            r.words == run_len(old(self).bus.ram@.len(), old(self).bus.rom@.len(), phys(addr, 4) as int),
    {
        if self.last_fetch_addr != addr {
            self.last_fetch_addr = addr;
            let a = phys_addr(addr, 4);
            self.last_fetch_mem = self.bus.fetch_read(a);
        }
        self.last_fetch_mem
    }

    /// Ends a delay slot: a pending branch takes effect.
    fn finish_branch(&mut self)
        ensures
            final(self).ctx@ == finish(old(self).ctx@),
            final(self).ctx.branch_pc == 0,
            old(self).frame(final(self)),
            final(self).bus.ram@ == old(self).bus.ram@,
            old(self).same_cops(final(self)),
    {
        if self.ctx.branch_pc != 0 {
            let tgt = self.ctx.branch_pc;
            self.ctx.set_pc(tgt);
        }
    }

    /// Executes words from `it` until the run ends, the deadline is reached
    /// or an instruction asks to leave the run; at least one word runs.
    fn tight_run(&mut self, it: &mut FetchIter)
        requires
            old(self).wf(),
            old(it).wf(),
            old(it).left >= 1,
            old(self).ctx.clock < old(self).until,
            old(self).until < i64::MAX - 2,
        ensures
            final(self).wf(),
            final(it).wf(),
            old(self).frame(final(self)),
            old(self).ctx.clock < final(self).ctx.clock <= old(self).until + 1,
            old(self).no_cops() ==> final(self).no_cops() && (
                final(self).ctx@,
                final(self).bus.ram@,
                final(it).addr as int,
                final(it).left as nat,
            ) == tight(
                old(self).ctx@,
                old(self).bus.ram@,
                old(self).bus.rom@,
                old(it).addr as int,
                old(it).left as nat,
                old(self).until as int,
            ),
    {
        let ghost left0 = it.left;
        let ghost clock0 = self.ctx.clock;
        let ghost target = tight(
            self.ctx@,
            self.bus.ram@,
            self.bus.rom@,
            it.addr as int,
            it.left as nat,
            self.until as int,
        );
        loop
            invariant_except_break
                self.wf(),
                it.wf(),
                old(self).frame(self),
                self.until == old(self).until,
                self.until < i64::MAX - 2,
                self.ctx.clock < self.until,
                it.left <= left0,
                left0 >= 1,
                it.left < left0 ==> self.ctx.clock > clock0,
                it.left == left0 ==> self.ctx.clock == clock0,
                clock0 == old(self).ctx.clock,
                old(self).no_cops() ==> self.no_cops() && tight(
                    self.ctx@,
                    self.bus.ram@,
                    self.bus.rom@,
                    it.addr as int,
                    it.left as nat,
                    self.until as int,
                ) == target,
            ensures
                self.wf(),
                it.wf(),
                old(self).frame(self),
                old(self).ctx.clock < self.ctx.clock <= old(self).until + 1,
                old(self).no_cops() ==> self.no_cops() && (
                    self.ctx@,
                    self.bus.ram@,
                    it.addr as int,
                    it.left as nat,
                ) == target,
            decreases it.left,
        {
            match it.next(&self.bus) {
                Some(w) => {
                    self.ctx.pc = crate::arith::add32(self.ctx.pc, 4);
                    self.op(w);
                    if self.ctx.clock >= self.until || self.ctx.tight_exit {
                        break ;
                    }
                },
                None => {
                    break ;
                },
            }
        }
    }

    /// Runs the delay slot of a taken branch: the next word of `it`, or a
    /// fresh fetch at the PC when the run is used up, executes with the PC
    /// still at the delay slot; then the branch takes effect. A delay-slot
    /// instruction that enters an exception has cleared the pending branch,
    /// and the PC stays at the handler.
    fn delay_slot(&mut self, it: &mut FetchIter)
        requires
            old(self).wf(),
            old(it).wf(),
            old(self).ctx.clock < i64::MAX - 1,
        ensures
            final(self).wf(),
            old(self).bus.rom@ == final(self).bus.rom@,
            old(self).bus.ram@.len() == final(self).bus.ram@.len(),
            final(self).until == old(self).until,
            final(self).ctx.branch_pc == 0,
            old(self).ctx.clock < final(self).ctx.clock <= old(self).ctx.clock + 2,
            old(self).no_cops() ==> final(self).no_cops() && ({
                let w = if old(it).left > 0 {
                    load_from(old(self).bus.ram@, old(self).bus.rom@, old(it).addr as int, 4) as u32
                } else {
                    load_from(
                        old(self).bus.ram@,
                        old(self).bus.rom@,
                        phys(old(self).ctx.pc, 4) as int,
                        4,
                    ) as u32
                };
                let d = exec_plain(old(self).ctx@, old(self).bus.ram@, old(self).bus.rom@, w);
                final(self).ctx@ == finish(d.0) && final(self).bus.ram@ == d.1
            }),
    {
        let w = match it.next(&self.bus) {
            Some(w) => w,
            None => {
                let pc = self.ctx.pc;
                let h = self.fetch(pc);
                h.read(&self.bus)
            },
        };
        self.op(w);
        self.finish_branch();
    }

    /// One round of the run loop: a pending interrupt is taken, then a
    /// straight-line run, then the delay slot of a branch that ended it.
    /// After entering an interrupt the round goes on at the handler rather
    /// than checking the deadline and polling again, so that every round
    /// runs at least one instruction and the loop ends whatever Cop0 reports;
    /// with a Cop0 that masks interrupts on entry the two orders agree.
    fn round(&mut self)
        requires
            old(self).wf(),
            old(self).ctx.clock < old(self).until,
            old(self).until < i64::MAX - 2,
        ensures
            final(self).wf(),
            final(self).until == old(self).until,
            final(self).bus.rom@ == old(self).bus.rom@,
            final(self).bus.ram@.len() == old(self).bus.ram@.len(),
            old(self).ctx.clock < final(self).ctx.clock <= old(self).until + 3,
            final(self).ctx.branch_pc == 0,
            old(self).no_cops() ==> final(self).no_cops() && (final(self).ctx@, final(self).bus.ram@)
                == round_to(old(self).ctx@, old(self).bus.ram@, old(self).bus.rom@, old(self).until as int),
    {
        let pending = match &self.cop0 {
            Some(c) => c.pending_int(),
            None => false,
        };
        if pending {
            self.exception(Exception::INT);
        }
        let pc = self.ctx.pc;
        let h = self.fetch(pc);
        let mut it = h.iter();
        self.ctx.tight_exit = false;
        self.tight_run(&mut it);
        if self.ctx.branch_pc != 0 {
            self.delay_slot(&mut it);
        }
        proof {
            reveal(round_to);
        }
    }

    /// Runs until the clock reaches `until`, round by round (see `round`): a
    /// straight-line run ends at a branch, at a raised interrupt line or at
    /// the deadline, so interrupts and branches are looked at once a run.
    /// Without coprocessors the outcome is exactly `run_to`; with them, the
    /// deadline and the memory frame still hold whatever they do.
    pub fn run(&mut self, until: i64)
        requires
            old(self).wf(),
            until < i64::MAX - 2,
        ensures
            final(self).wf(),
            final(self).until == until,
            final(self).bus.rom@ == old(self).bus.rom@,
            final(self).bus.ram@.len() == old(self).bus.ram@.len(),
            old(self).ctx.clock >= until ==> final(self).ctx == old(self).ctx,
            old(self).ctx.clock < until ==> until <= final(self).ctx.clock <= until + 3,
            old(self).ctx.clock < until ==> final(self).ctx.branch_pc == 0,
            old(self).no_cops() ==> final(self).no_cops() && (final(self).ctx@, final(self).bus.ram@)
                == run_to(old(self).ctx@, old(self).bus.ram@, old(self).bus.rom@, until as int),
    {
        self.until = until;
        while self.ctx.clock < self.until
            invariant
                self.wf(),
                self.until == until,
                until < i64::MAX - 2,
                self.bus.rom@ == old(self).bus.rom@,
                self.bus.ram@.len() == old(self).bus.ram@.len(),
                old(self).ctx.clock >= until ==> self.ctx == old(self).ctx,
                old(self).ctx.clock < until ==> self.ctx.clock <= until + 3,
                old(self).ctx.clock < until && self.ctx.clock != old(self).ctx.clock
                    ==> self.ctx.branch_pc == 0,
                old(self).no_cops() ==> self.no_cops() && run_to(
                    self.ctx@,
                    self.bus.ram@,
                    self.bus.rom@,
                    until as int,
                ) == run_to(old(self).ctx@, old(self).bus.ram@, old(self).bus.rom@, until as int),
            decreases if self.ctx.clock < until {
                until - self.ctx.clock
            } else {
                0
            },
        {
            self.round();
        }
    }

    /// The aligned word holding `addr`.
    fn read_word(&self, addr: u32) -> (r: u32)
        ensures
            r == load_from(self.bus.ram@, self.bus.rom@, phys(addr, 4) as int, 4) as u32,
            r as nat == load_from(self.bus.ram@, self.bus.rom@, phys(addr, 4) as int, 4),
    {
        proof {
            reveal_with_fuel(pow256, 5);
        }
        self.read(addr, 4) as u32
    }

    /// LWL at `addr` into the register value `reg`.
    fn lwl(&self, addr: u32, reg: u32) -> (r: u32)
        ensures
            r == lwl_merge(reg, load_from(self.bus.ram@, self.bus.rom@, phys(addr, 4) as int, 4)
                as u32, addr),
    {
        let mem = self.read_word(addr);
        proof {
            lemma_shifts(addr);
        }
        let shift = (addr & 3) * 8;
        let mask = #[verifier::truncate] (((1u64 << shift) - 1) as u32);
        (reg & mask) | ((mem << shift) & !mask)
    }

    /// LWR at `addr` into the register value `reg`.
    fn lwr(&self, addr: u32, reg: u32) -> (r: u32)
        ensures
            r == lwr_merge(reg, load_from(self.bus.ram@, self.bus.rom@, phys(addr, 4) as int, 4)
                as u32, addr),
    {
        let mem = self.read_word(addr);
        proof {
            lemma_shifts(addr);
        }
        let shift = (!addr & 3) * 8;
        let mask = #[verifier::truncate] (((1u64 << (32 - shift)) - 1) as u32);
        (reg & !mask) | ((mem >> shift) & mask)
    }

    /// The word that SWL at `addr` of `reg` leaves in memory.
    fn swl(&self, addr: u32, reg: u32) -> (r: u32)
        ensures
            r == swl_merge(load_from(self.bus.ram@, self.bus.rom@, phys(addr, 4) as int, 4)
                as u32, reg, addr),
    {
        let mem = self.read_word(addr);
        proof {
            lemma_shifts(addr);
        }
        let shift = (addr & 3) * 8;
        let mask = #[verifier::truncate] (((1u64 << (32 - shift)) - 1) as u32);
        (mem & !mask) | ((reg >> shift) & mask)
    }

    /// The word that SWR at `addr` of `reg` leaves in memory.
    fn swr(&self, addr: u32, reg: u32) -> (r: u32)
        ensures
            r == swr_merge(load_from(self.bus.ram@, self.bus.rom@, phys(addr, 4) as int, 4)
                as u32, reg, addr),
    {
        let mem = self.read_word(addr);
        proof {
            lemma_shifts(addr);
        }
        let shift = (!addr & 3) * 8;
        let mask = #[verifier::truncate] (((1u64 << shift) - 1) as u32);
        (mem & mask) | ((reg << shift) & !mask)
    }
}

} // verus!
