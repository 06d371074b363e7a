//! The MIPS interface (MI) controller: four memory-mapped registers that
//! aggregate six device interrupt lines, under a mask, into the CPU's RCP
//! interrupt line (IP2).

use crate::bits::{get_bit, get_bits, set_bit, set_bits};
use crate::cpu::{line_mask, with_line, CpuContext, CtxView};
use vstd::prelude::*;

verus! {

/// The CPU line that all RCP interrupts go to.
pub const RSP_LINE: crate::cpu::Line = crate::cpu::Line::IP2;

/// The device interrupt lines, by their bit in the `interrupt` register.
#[derive(Clone, Copy, PartialEq, Eq, Structural, Debug)]
pub enum Line {
    SP,
    SI,
    AI,
    VI,
    PI,
    DP,
}

pub open spec fn line_bit(l: Line) -> usize {
    match l {
        Line::SP => 0,
        Line::SI => 1,
        Line::AI => 2,
        Line::VI => 3,
        Line::PI => 4,
        Line::DP => 5,
    }
}

impl Line {
    pub fn bit(self) -> (r: usize)
        ensures
            r == line_bit(self),
    {
        match self {
            Line::SP => 0,
            Line::SI => 1,
            Line::AI => 2,
            Line::VI => 3,
            Line::PI => 4,
            Line::DP => 5,
        }
    }
}

/// Bank-local offsets of the four registers.
pub const MI_INIT_MODE: u32 = 0x00;
pub const MI_VERSION: u32 = 0x04;
pub const MI_INTERRUPT: u32 = 0x08;
pub const MI_INTERRUPT_MASK: u32 = 0x0C;

/// Whether bit `i` of `x` is set.
pub open spec fn bit(x: u32, i: usize) -> bool {
    x & (1u32 << i) != 0
}

/// A paired clear/set write: bit `target` of `state` is cleared when bit
/// `clr` or bit `set` of `w` is written, and then set when bit `set` is:
/// set wins, and with neither the bit is kept.
pub open spec fn pair(state: u32, w: u32, clr: usize, set: usize, target: usize) -> u32 {
    let b = 1u32 << target;
    let touched = if bit(w, clr) || bit(w, set) {
        b
    } else {
        0
    };
    let setv = if bit(w, set) {
        b
    } else {
        0
    };
    (state & !touched) | setv
}

/// `interrupt_mask` after the write `w`: bits 2i and 2i + 1 clear and set
/// the mask of line i.
pub open spec fn mask_after(m: u32, w: u32) -> u32 {
    pair(
        pair(pair(pair(pair(pair(m, w, 0, 1, 0), w, 2, 3, 1), w, 4, 5, 2), w, 6, 7, 3), w, 8, 9, 4),
        w,
        10,
        11,
        5,
    )
}

/// `init_mode` after the write `w`: bits 0..6 become the init length;
/// bits 7/8 clear/set init mode (bit 7), 9/10 ebus test mode (bit 8), and
/// 12/13 RDRAM register mode (bit 9).
pub open spec fn init_after(m: u32, w: u32) -> u32 {
    pair(pair(pair((m & !0x7Fu32) | (w & 0x7F), w, 7, 8, 7), w, 9, 10, 8), w, 12, 13, 9)
}

/// Whether the CPU's RCP line agrees with the MI's masked interrupts.
pub open spec fn line_agrees(mi: Mi, c: CtxView) -> bool {
    (c.lines & line_mask(RSP_LINE) != 0) == (mi.interrupt & mi.interrupt_mask != 0)
}

/// A mask write keeps the mask within its six bits.
pub proof fn lemma_mask_after_bound(m: u32, w: u32)
    requires
        m < 0x40,
    ensures
        mask_after(m, w) < 0x40,
{
    assert(m < 0x40 ==> mask_after(m, w) < 0x40) by (bit_vector);
}

/// An `init_mode` write keeps it within its ten bits.
pub proof fn lemma_init_after_bound(m: u32, w: u32)
    requires
        m < 0x400,
    ensures
        init_after(m, w) < 0x400,
{
    assert(m < 0x400 ==> init_after(m, w) < 0x400) by (bit_vector);
}

pub struct Mi {
    /// Init length [6:0], init mode [7], ebus test mode [8], RDRAM register
    /// mode [9].
    pub init_mode: u32,
    /// Versions of io [7:0], rac [15:8], rdp [23:16], rsp [31:24].
    pub version: u32,
    /// One bit per device line.
    pub interrupt: u32,
    /// One enable bit per device line.
    pub interrupt_mask: u32,
}

impl Mi {
    /// Only the observable bits can be set: ten of `init_mode`, six of
    /// `interrupt` and of `interrupt_mask`.
    pub open spec fn wf(&self) -> bool {
        &&& self.init_mode < 0x400
        &&& self.interrupt < 0x40
        &&& self.interrupt_mask < 0x40
    }

    /// The MI after reset: init mode on, all versions 1.
    pub fn new() -> (r: Mi)
        ensures
            r == (Mi { init_mode: 0x80, version: 0x0101_0101, interrupt: 0, interrupt_mask: 0 }),
            r.wf(),
    {
        Mi { init_mode: 0x80, version: 0x0101_0101, interrupt: 0, interrupt_mask: 0 }
    }

    /// Raises or lowers a device line and drives the CPU's RCP line.
    pub fn set_line(&mut self, cpu: &mut CpuContext, line: Line, val: bool)
        requires
            old(self).wf(),
        ensures
            final(self).wf(),
            final(self).interrupt == (if val {
                old(self).interrupt | (1u32 << line_bit(line))
            } else {
                old(self).interrupt & !(1u32 << line_bit(line))
            }),
            final(self).init_mode == old(self).init_mode,
            final(self).version == old(self).version,
            final(self).interrupt_mask == old(self).interrupt_mask,
            final(cpu)@ == with_line(
                old(cpu)@,
                RSP_LINE,
                final(self).interrupt & final(self).interrupt_mask != 0,
            ),
            line_agrees(*final(self), final(cpu)@),
    {
        self.interrupt = set_bit(self.interrupt, line.bit(), val);
        proof {
            let x = old(self).interrupt;
            let b = line_bit(line);
            assert(x < 0x40 && b < 6 ==> (x | (1u32 << b)) < 0x40 && (x & !(1u32 << b)) < 0x40)
                by (bit_vector);
        }
        self.update_interrupts(cpu);
    }

    /// Drives the CPU's RCP line from the masked interrupts.
    fn update_interrupts(&self, cpu: &mut CpuContext)
        ensures
            final(cpu)@ == with_line(old(cpu)@, RSP_LINE, self.interrupt & self.interrupt_mask != 0),
            line_agrees(*self, final(cpu)@),
    {
        let val = self.interrupt & self.interrupt_mask != 0;
        cpu.set_line(RSP_LINE, val);
        proof {
            let l = old(cpu).lines;
            assert((l | 4u8) & 4u8 != 0) by (bit_vector);
            assert((l & !4u8) & 4u8 == 0) by (bit_vector);
        }
    }

    /// One paired clear/set write.
    fn pair(state: u32, new: u32, clr: usize, set: usize, target: usize) -> (r: u32)
        requires
            clr < 32,
            set < 32,
            target < 32,
        ensures
            r == pair(state, new, clr, set, target),
    {
        let mut res = state;
        if get_bit(new, clr) {
            res = set_bit(res, target, false);
        }
        if get_bit(new, set) {
            res = set_bit(res, target, true);
        }
        proof {
            let t = target;
            assert(state | (1u32 << t) == (state & !(1u32 << t)) | (1u32 << t)) by (bit_vector);
            assert(state & !(1u32 << t) == (state & !(1u32 << t)) | 0) by (bit_vector);
            assert(state == (state & !0u32) | 0) by (bit_vector);
        }
        res
    }

    fn cb_write_init_mode(&mut self, cpu: &mut CpuContext, prev: u32, new: u32)
        requires
            old(self).wf(),
            prev < 0x400,
        ensures
            final(self).wf(),
            final(self).init_mode == init_after(prev, new),
            final(self).version == old(self).version,
            final(self).interrupt_mask == old(self).interrupt_mask,
            bit(new, 11) ==> final(self).interrupt == old(self).interrupt & !(1u32 << 5usize)
                && final(cpu)@ == with_line(
                old(cpu)@,
                RSP_LINE,
                final(self).interrupt & final(self).interrupt_mask != 0,
            ),
            !bit(new, 11) ==> final(self).interrupt == old(self).interrupt && final(cpu)@ == old(
                cpu,
            )@,
    {
        // init length
        let len = get_bits(new, 0, 7);
        proof {
            assert(((((new << 25u32) >> 25u32) >> 0u32) << 25u32) >> 25u32 == ((new << 25u32)
                >> 25u32) >> 0u32) by (bit_vector);
        }
        let mut res = set_bits(prev, 0, 7, len);
        proof {
            assert((prev & !(((!0u32 << 25u32) >> 25u32) >> 0u32 << 0u32)) | ((((new << 25u32)
                >> 25u32) >> 0u32) << 0u32) == (prev & !0x7Fu32) | (new & 0x7F)) by (bit_vector);
        }
        res = Self::pair(res, new, 7, 8, 7);
        res = Self::pair(res, new, 9, 10, 8);
        // clear DP interrupt
        if get_bit(new, 11) {
            self.set_line(cpu, Line::DP, false);
        }
        res = Self::pair(res, new, 12, 13, 9);
        proof {
            lemma_init_after_bound(prev, new);
        }
        self.init_mode = res;
    }

    fn cb_read_init_mode(&self, prev: u32) -> (r: u32)
        ensures
            r == prev & 0x3FF,
    {
        let r = get_bits(prev, 0, 10);
        proof {
            assert(((prev << 22u32) >> 22u32) >> 0u32 == prev & 0x3FF) by (bit_vector);
        }
        r
    }

    fn cb_write_interrupt_mask(&mut self, cpu: &mut CpuContext, prev: u32, new: u32)
        requires
            old(self).wf(),
            prev < 0x40,
        ensures
            final(self).wf(),
            final(self).interrupt_mask == mask_after(prev, new),
            final(self).init_mode == old(self).init_mode,
            final(self).version == old(self).version,
            final(self).interrupt == old(self).interrupt,
            final(cpu)@ == with_line(
                old(cpu)@,
                RSP_LINE,
                final(self).interrupt & final(self).interrupt_mask != 0,
            ),
            line_agrees(*final(self), final(cpu)@),
    {
        let mut res = prev;
        // SP, SI, AI, VI, PI, DP masks
        res = Self::pair(res, new, 0, 1, 0);
        res = Self::pair(res, new, 2, 3, 1);
        res = Self::pair(res, new, 4, 5, 2);
        res = Self::pair(res, new, 6, 7, 3);
        res = Self::pair(res, new, 8, 9, 4);
        res = Self::pair(res, new, 10, 11, 5);
        proof {
            lemma_mask_after_bound(prev, new);
        }
        self.interrupt_mask = res;
        self.update_interrupts(cpu);
    }

    /// Reads the 32-bit register at bank-local `offset`: the observable
    /// fields of `init_mode` and `interrupt_mask`, the version, and the six
    /// interrupt bits; other offsets read as zero.
    pub fn read(&self, offset: u32) -> (r: u32)
        ensures
            r == (if offset == MI_INIT_MODE {
                self.init_mode & 0x3FF
            } else if offset == MI_VERSION {
                self.version
            } else if offset == MI_INTERRUPT {
                self.interrupt & 0x3F
            } else if offset == MI_INTERRUPT_MASK {
                self.interrupt_mask & 0x3F
            } else {
                0
            }),
    {
        if offset == MI_INIT_MODE {
            self.cb_read_init_mode(self.init_mode)
        } else if offset == MI_VERSION {
            self.version
        } else if offset == MI_INTERRUPT {
            self.interrupt & 0x3F
        } else if offset == MI_INTERRUPT_MASK {
            self.cb_read_interrupt_mask(self.interrupt_mask)
        } else {
            0
        }
    }

    /// Writes the 32-bit register at bank-local `offset`. `init_mode` and
    /// `interrupt_mask` take paired clear/set bits; a write to the mask,
    /// and bit 11 of an `init_mode` write (which acknowledges the DP
    /// interrupt), drive the CPU's RCP line anew. The version and interrupt
    /// registers are read-only.
    pub fn write(&mut self, cpu: &mut CpuContext, offset: u32, val: u32)
        requires
            old(self).wf(),
        ensures
            final(self).wf(),
            final(self).version == old(self).version,
            offset == MI_INIT_MODE ==> final(self).init_mode == init_after(old(self).init_mode, val)
                && final(self).interrupt_mask == old(self).interrupt_mask && (if bit(val, 11) {
                final(self).interrupt == old(self).interrupt & !(1u32 << 5usize) && final(cpu)@
                    == with_line(
                    old(cpu)@,
                    RSP_LINE,
                    final(self).interrupt & final(self).interrupt_mask != 0,
                )
            } else {
                final(self).interrupt == old(self).interrupt && final(cpu)@ == old(cpu)@
            }),
            offset == MI_INTERRUPT_MASK ==> final(self).interrupt_mask == mask_after(
                old(self).interrupt_mask,
                val,
            ) && final(self).init_mode == old(self).init_mode && final(self).interrupt == old(
                self,
            ).interrupt && final(cpu)@ == with_line(
                old(cpu)@,
                RSP_LINE,
                final(self).interrupt & final(self).interrupt_mask != 0,
            ) && line_agrees(*final(self), final(cpu)@),
            offset != MI_INIT_MODE && offset != MI_INTERRUPT_MASK ==> *final(self) == *old(self)
                && final(cpu)@ == old(cpu)@,
    {
        if offset == MI_INIT_MODE {
            let prev = self.init_mode;
            self.cb_write_init_mode(cpu, prev, val);
        } else if offset == MI_INTERRUPT_MASK {
            let prev = self.interrupt_mask;
            self.cb_write_interrupt_mask(cpu, prev, val);
        }
    }

    fn cb_read_interrupt_mask(&self, prev: u32) -> (r: u32)
        ensures
            r == prev & 0x3F,
    {
        let r = get_bits(prev, 0, 6);
        proof {
            assert(((prev << 26u32) >> 26u32) >> 0u32 == prev & 0x3F) by (bit_vector);
        }
        r
    }
}

} // verus!
