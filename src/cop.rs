//! The interfaces through which coprocessors plug into the CPU.

use crate::bus::{load_from, phys, phys_addr, store, stored_some, Bus};
use crate::cpu::{gpr, CpuContext, CtxView, Exception};
use crate::isa::{ea, ea_of, imm_of, rs_of, rt_of, Mipsop};
use vstd::prelude::*;

verus! {

/// Physical address of the `n`-byte transfer of the coprocessor
/// load/store `w`: base register plus sign-extended displacement.
pub open spec fn cop_addr(c: CtxView, w: u32, n: u32) -> u32 {
    phys(ea_of(gpr(c, rs_of(w) as int), imm_of(w)), n)
}

/// The register and the value of the `n`-byte coprocessor load `op`: the
/// big-endian bytes at the base register plus displacement, in the
/// physical window and aligned to `n`.
pub fn cop_load(op: u32, ctx: &CpuContext, bus: &Bus, n: u32) -> (r: (usize, u128))
    requires
        n == 4 || n == 8,
    ensures
        r.0 == rt_of(op),
        r.0 < 32,
        r.1 == load_from(bus.ram@, bus.rom@, cop_addr(ctx@, op, n) as int, n as nat),
{
    let m = Mipsop { opcode: op };
    let a = phys_addr(ea(ctx.gpr(m.rs()), m.imm()), n);
    let val = bus.read(a, n);
    (m.rt(), val as u128)
}

/// Stores the low `n` bytes of `val` for the coprocessor store `op`, at
/// the base register plus displacement, in the physical window and aligned
/// to `n`.
pub fn cop_store(op: u32, ctx: &CpuContext, bus: &mut Bus, n: u32, val: u64)
    requires
        n == 4 || n == 8,
    ensures
        final(bus).rom@ == old(bus).rom@,
        final(bus).ram@ == store(old(bus).ram@, cop_addr(ctx@, op, n) as int, n as nat, val as nat),
{
    let m = Mipsop { opcode: op };
    let a = phys_addr(ea(ctx.gpr(m.rs()), m.imm()), n);
    bus.write(a, n, val);
}

/// A MIPS64 coprocessor that can be installed in the CPU.
pub trait Cop {
    fn reg(&self, idx: usize) -> u128;

    fn set_reg(&mut self, idx: usize, val: u128);

    /// Executes a coprocessor instruction, possibly writing the CPU's
    /// registers; the cycle count belongs to the CPU and is left alone.
    fn op(&mut self, cpu: &mut CpuContext, opcode: u32)
        ensures
            final(cpu).clock == old(cpu).clock,
    ;

    /// LWCz: hands register `rt` the 32-bit word that `cop_load` reads.
    fn lwc(&mut self, op: u32, ctx: &CpuContext, bus: &Bus) {
        let (rt, val) = cop_load(op, ctx, bus, 4);
        self.set_reg(rt, val);
    }

    /// LDCz: hands register `rt` the 64-bit doubleword that `cop_load` reads.
    fn ldc(&mut self, op: u32, ctx: &CpuContext, bus: &Bus) {
        let (rt, val) = cop_load(op, ctx, bus, 8);
        self.set_reg(rt, val);
    }

    /// SWCz: stores the low 32 bits of register `rt` through `cop_store`.
    fn swc(&mut self, op: u32, ctx: &CpuContext, bus: &mut Bus)
        ensures
            final(bus).rom@ == old(bus).rom@,
            stored_some(old(bus).ram@, cop_addr(ctx@, op, 4) as int, 4, final(bus).ram@),
    {
        let val = #[verifier::truncate] (self.reg(Mipsop { opcode: op }.rt()) as u32);
        cop_store(op, ctx, bus, 4, val as u64);
        assert(store(old(bus).ram@, cop_addr(ctx@, op, 4) as int, 4, val as nat) == bus.ram@);
    }

    /// SDCz: stores the low 64 bits of register `rt` through `cop_store`.
    fn sdc(&mut self, op: u32, ctx: &CpuContext, bus: &mut Bus)
        ensures
            final(bus).rom@ == old(bus).rom@,
            stored_some(old(bus).ram@, cop_addr(ctx@, op, 8) as int, 8, final(bus).ram@),
    {
        let val = #[verifier::truncate] (self.reg(Mipsop { opcode: op }.rt()) as u64);
        cop_store(op, ctx, bus, 8, val);
        assert(store(old(bus).ram@, cop_addr(ctx@, op, 8) as int, 8, val as nat) == bus.ram@);
    }
}

/// Coprocessor 0, which besides being a coprocessor controls execution:
/// it reports pending interrupts and enters exceptions.
pub trait Cop0: Cop {
    /// Whether an interrupt is pending; when it is, the CPU enters
    /// `Exception::INT` right away.
    fn pending_int(&self) -> bool;

    /// Enters the exception `exc`, typically by moving the PC to its handler.
    fn exception(&mut self, ctx: &mut CpuContext, exc: Exception)
        ensures
            final(ctx).clock == old(ctx).clock,
    ;
}

/// A coprocessor without state: its registers read as zero, its
/// instructions do nothing, and as Cop0 it never has an interrupt pending
/// and ignores exceptions.
pub struct NoCop;

impl Cop for NoCop {
    fn reg(&self, idx: usize) -> u128 {
        0
    }

    fn set_reg(&mut self, idx: usize, val: u128) {
    }

    fn op(&mut self, cpu: &mut CpuContext, opcode: u32) {
    }
}

impl Cop0 for NoCop {
    fn pending_int(&self) -> bool {
        false
    }

    fn exception(&mut self, ctx: &mut CpuContext, exc: Exception) {
    }
}

} // verus!
