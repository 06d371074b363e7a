//! The architectural CPU context, the coprocessor interfaces, and the MIPS64
//! interpreter with its branch-delay and tight-run protocol.

use crate::arith::wrap32;
use vstd::prelude::*;

verus! {

/// The eight interrupt inputs of the CPU.
#[derive(Clone, Copy, PartialEq, Eq, Structural, Debug)]
pub enum Line {
    /// Software interrupt 1.
    IP0,
    /// Software interrupt 2.
    IP1,
    /// RCP interrupt, driven by the MI.
    IP2,
    /// Cartridge.
    IP3,
    /// Pre-NMI (reset button).
    IP4,
    /// RDB read.
    IP5,
    /// NMI.
    IP6,
    /// Timer.
    IP7,
}

/// The bit of a line in the CPU's interrupt-line mask.
pub open spec fn line_mask(l: Line) -> u8 {
    match l {
        Line::IP0 => 0x01,
        Line::IP1 => 0x02,
        Line::IP2 => 0x04,
        Line::IP3 => 0x08,
        Line::IP4 => 0x10,
        Line::IP5 => 0x20,
        Line::IP6 => 0x40,
        Line::IP7 => 0x80,
    }
}

impl Line {
    pub fn mask(self) -> (r: u8)
        ensures
            r == line_mask(self),
    {
        match self {
            Line::IP0 => 0x01,
            Line::IP1 => 0x02,
            Line::IP2 => 0x04,
            Line::IP3 => 0x08,
            Line::IP4 => 0x10,
            Line::IP5 => 0x20,
            Line::IP6 => 0x40,
            Line::IP7 => 0x80,
        }
    }
}

/// Exceptions that Cop0 can be asked to enter.
#[allow(non_camel_case_types)]
#[derive(Clone, Copy, PartialEq, Eq, Structural, Debug)]
pub enum Exception {
    /// Interrupt.
    INT,
    /// TLB modification.
    MOD,
    /// TLB miss on load or fetch.
    TLBL,
    /// TLB miss on store.
    TLBS,
    /// Address error on load or fetch.
    ADEL,
    /// Address error on store.
    ADES,
    /// Syscall.
    SYS,
    /// Breakpoint.
    BP,
    /// Reserved instruction.
    RI,
    /// Arithmetic overflow.
    OV,
    /// Cold reset.
    RESET,
    /// Soft reset.
    SOFTRESET,
    /// Non-maskable interrupt.
    NMI,
}

/// The exception code of `e` in the Cause register; the three that Cause
/// does not hold take codes from 0x100.
pub open spec fn exception_code(e: Exception) -> u32 {
    match e {
        Exception::INT => 0x00,
        Exception::MOD => 0x01,
        Exception::TLBL => 0x02,
        Exception::TLBS => 0x03,
        Exception::ADEL => 0x04,
        Exception::ADES => 0x05,
        Exception::SYS => 0x08,
        Exception::BP => 0x09,
        Exception::RI => 0x0A,
        Exception::OV => 0x0C,
        Exception::RESET => 0x100,
        Exception::SOFTRESET => 0x101,
        Exception::NMI => 0x102,
    }
}

impl Exception {
    pub fn code(self) -> (r: u32)
        ensures
            r == exception_code(self),
    {
        match self {
            Exception::INT => 0x00,
            Exception::MOD => 0x01,
            Exception::TLBL => 0x02,
            Exception::TLBS => 0x03,
            Exception::ADEL => 0x04,
            Exception::ADES => 0x05,
            Exception::SYS => 0x08,
            Exception::BP => 0x09,
            Exception::RI => 0x0A,
            Exception::OV => 0x0C,
            Exception::RESET => 0x100,
            Exception::SOFTRESET => 0x101,
            Exception::NMI => 0x102,
        }
    }
}

/// The reset vector.
pub const RESET_PC: u32 = 0x1FC0_0000;

/// The architectural state of the CPU.
pub struct CpuContext {
    pub regs: [u64; 32],
    pub hi: u64,
    pub lo: u64,
    pub pc: u32,
    /// Target of a taken branch whose delay slot has not run yet; 0 for none.
    pub branch_pc: u32,
    pub clock: i64,
    /// Asks the interpreter to leave its straight-line run.
    pub tight_exit: bool,
    /// One bit per interrupt line, see `line_mask`.
    pub lines: u8,
}

/// The mathematical view of a `CpuContext`.
pub struct CtxView {
    pub regs: Seq<u64>,
    pub hi: u64,
    pub lo: u64,
    pub pc: u32,
    pub branch_pc: u32,
    pub clock: int,
    pub tight_exit: bool,
    pub lines: u8,
}

impl View for CpuContext {
    type V = CtxView;

    open spec fn view(&self) -> CtxView {
        CtxView {
            regs: self.regs@,
            hi: self.hi,
            lo: self.lo,
            pc: self.pc,
            branch_pc: self.branch_pc,
            clock: self.clock as int,
            tight_exit: self.tight_exit,
            lines: self.lines,
        }
    }
}

/// General-purpose register `i`; register 0 always reads as zero.
pub open spec fn gpr(c: CtxView, i: int) -> u64 {
    if i == 0 {
        0
    } else {
        c.regs[i]
    }
}

/// `c` with register `i` set to `x`; a write to register 0 is dropped.
pub open spec fn with_gpr(c: CtxView, i: int, x: u64) -> CtxView {
    if i == 0 {
        c
    } else {
        CtxView { regs: c.regs.update(i, x), ..c }
    }
}

/// `c` one cycle later.
pub open spec fn tick(c: CtxView) -> CtxView {
    CtxView { clock: c.clock + 1, ..c }
}

/// `c` after `branch(cond, tgt, likely)`.
pub open spec fn branched(c: CtxView, cond: bool, tgt: u32, likely: bool) -> CtxView {
    if cond {
        CtxView { branch_pc: tgt, tight_exit: true, ..c }
    } else if likely {
        CtxView { pc: wrap32(c.pc + 4), clock: c.clock + 1, tight_exit: true, ..c }
    } else {
        c
    }
}

/// `c` after `set_line(l, stat)`.
pub open spec fn with_line(c: CtxView, l: Line, stat: bool) -> CtxView {
    if stat {
        CtxView { lines: c.lines | line_mask(l), tight_exit: true, ..c }
    } else {
        CtxView { lines: c.lines & !line_mask(l), ..c }
    }
}

/// The state of a freshly reset CPU.
pub open spec fn reset_view() -> CtxView {
    CtxView {
        regs: Seq::new(32, |i: int| 0u64),
        hi: 0,
        lo: 0,
        pc: RESET_PC,
        branch_pc: 0,
        clock: 0,
        tight_exit: false,
        lines: 0,
    }
}

impl CpuContext {
    /// A context in its reset state: registers zero, PC at the reset vector.
    pub fn new() -> (r: CpuContext)
        ensures
            r@ == reset_view(),
    {
        let r = CpuContext {
            regs: [0u64; 32],
            hi: 0,
            lo: 0,
            pc: RESET_PC,
            branch_pc: 0,
            clock: 0,
            tight_exit: false,
            lines: 0,
        };
        assert(r.regs@ =~= Seq::new(32, |i: int| 0u64));
        r
    }

    /// Records a branch: a taken one sets the pending target; a "likely"
    /// one that is not taken skips its delay slot.
    pub fn branch(&mut self, cond: bool, tgt: u32, likely: bool)
        requires
            cond || !likely || old(self).clock < i64::MAX,
        ensures
            final(self)@ == branched(old(self)@, cond, tgt, likely),
    {
        if cond {
            self.branch_pc = tgt;
            self.tight_exit = true;
        } else if likely {
            self.pc = self.pc.wrapping_add(4);
            self.clock = self.clock + 1;
            self.tight_exit = true;
        }
    }

    /// Raises or lowers one interrupt line; raising one also ends the
    /// current straight-line run.
    pub fn set_line(&mut self, line: Line, stat: bool)
        ensures
            final(self)@ == with_line(old(self)@, line, stat),
    {
        let line_val = line.mask();
        if stat {
            self.tight_exit = true;
            self.lines = self.lines | line_val;
        } else {
            self.lines = self.lines & !line_val;
        }
    }

    /// Whether `line` is raised.
    pub fn line(&self, line: Line) -> (r: bool)
        ensures
            r == (self.lines & line_mask(line) != 0),
    {
        self.lines & line.mask() != 0
    }

    /// Jumps to `pc`, dropping any pending branch.
    pub fn set_pc(&mut self, pc: u32)
        ensures
            final(self)@ == (CtxView { pc, branch_pc: 0, ..old(self)@ }),
    {
        self.pc = pc;
        self.branch_pc = 0;
    }

    pub fn get_pc(&self) -> (r: u32)
        ensures
            r == self.pc,
    {
        self.pc
    }

    /// General-purpose register `i`; register 0 reads as zero.
    pub fn gpr(&self, i: usize) -> (r: u64)
        requires
            i < 32,
        ensures
            r == gpr(self@, i as int),
    {
        if i == 0 {
            0
        } else {
            self.regs[i]
        }
    }

    /// Writes register `i`; writes to register 0 are dropped.
    pub fn set_gpr(&mut self, i: usize, x: u64)
        requires
            i < 32,
        ensures
            final(self)@ == with_gpr(old(self)@, i as int, x),
    {
        if i != 0 {
            self.regs[i] = x;
        }
        proof {
            if i != 0 {
                assert(final(self)@.regs =~= old(self)@.regs.update(i as int, x));
            }
        }
    }
}

} // verus!
