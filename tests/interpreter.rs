use n64core::bus::Bus;
use n64core::cop::{Cop, Cop0, NoCop};
use n64core::cpu::{CpuContext, Exception, Line};
use n64core::isa::{alu_imm, alu_special, btgt, jtgt, mul_div};
use n64core::mips::Cpu;

type Plain = Cpu<NoCop, NoCop, NoCop, NoCop>;

const RESET: u32 = 0x1FC0_0000;

fn itype(op: u32, rs: u32, rt: u32, imm: u32) -> u32 {
    (op << 26) | (rs << 21) | (rt << 16) | (imm & 0xFFFF)
}

fn rtype(rs: u32, rt: u32, rd: u32, sa: u32, funct: u32) -> u32 {
    (rs << 21) | (rt << 16) | (rd << 11) | (sa << 6) | funct
}

fn rom_of(words: &[u32]) -> Vec<u8> {
    let mut rom = Vec::new();
    for w in words {
        rom.extend_from_slice(&w.to_be_bytes());
    }
    rom
}

fn cpu_with_rom(words: &[u32]) -> Plain {
    Cpu::new(Bus::new(0x1000, rom_of(words)))
}

/// A CPU running `words` from RAM address 0x100.
fn cpu_with_ram(words: &[u32]) -> Plain {
    let mut cpu: Plain = Cpu::new(Bus::new(0x1000, Vec::new()));
    for (i, w) in words.iter().enumerate() {
        for (j, b) in w.to_be_bytes().iter().enumerate() {
            cpu.bus.ram[0x100 + 4 * i + j] = *b;
        }
    }
    cpu.ctx.set_pc(0x100);
    cpu
}

#[test]
fn lui_ori_scenario() {
    let mut cpu = cpu_with_rom(&[itype(0x0F, 0, 1, 0x1234), itype(0x0D, 1, 1, 0x5678)]);
    assert_eq!(cpu.ctx.get_pc(), RESET);
    cpu.run(2);
    assert_eq!(cpu.ctx.regs[1], 0x0000_0000_1234_5678);
    assert_eq!(cpu.ctx.get_pc(), 0x1FC0_0008);
    assert_eq!(cpu.ctx.clock, 2);
    assert_eq!(cpu.cycles(), 2);
}

#[test]
fn lui_sign_extends() {
    let mut cpu = cpu_with_rom(&[itype(0x0F, 0, 1, 0x8000)]);
    cpu.run(1);
    assert_eq!(cpu.ctx.regs[1], 0xFFFF_FFFF_8000_0000);
}

#[test]
fn beq_taken_runs_delay_slot() {
    let mut cpu = cpu_with_rom(&[
        itype(0x09, 0, 2, 5),
        itype(0x04, 2, 2, 4),
        itype(0x09, 0, 3, 7),
        itype(0x09, 0, 4, 9),
    ]);
    cpu.run(4);
    assert_eq!(cpu.ctx.regs[2], 5);
    assert_eq!(cpu.ctx.regs[3], 7);
    assert_eq!(cpu.ctx.regs[4], 0);
    assert_eq!(cpu.ctx.clock, 4);
    // the branch target is past the fourth word, and one word ran there
    assert_eq!(cpu.ctx.get_pc(), RESET + 8 + 16 + 4);
}

#[test]
fn taken_branch_lands_on_target() {
    let mut cpu = cpu_with_rom(&[
        itype(0x04, 0, 0, 2),
        itype(0x09, 0, 3, 7),
        itype(0x09, 0, 4, 9),
        itype(0x09, 0, 5, 11),
    ]);
    cpu.run(2);
    assert_eq!(cpu.ctx.get_pc(), RESET + 12);
    assert_eq!(cpu.ctx.regs[3], 7);
    assert_eq!(cpu.ctx.branch_pc, 0);
    cpu.run(3);
    assert_eq!(cpu.ctx.regs[4], 0);
    assert_eq!(cpu.ctx.regs[5], 11);
}

#[test]
fn beql_not_taken_skips_delay_slot() {
    let mut cpu = cpu_with_rom(&[
        itype(0x09, 0, 2, 5),
        itype(0x09, 0, 5, 6),
        itype(0x14, 2, 5, 4),
        itype(0x09, 0, 3, 7),
        itype(0x09, 0, 4, 9),
    ]);
    cpu.run(5);
    assert_eq!(cpu.ctx.regs[3], 0);
    assert_eq!(cpu.ctx.regs[4], 9);
    assert_eq!(cpu.ctx.clock, 5);
}

#[test]
fn likely_not_taken_advances_pc_by_eight() {
    let mut cpu = cpu_with_rom(&[itype(0x15, 0, 0, 4)]); // BNEL r0, r0
    cpu.ctx.pc = RESET + 4;
    cpu.op(itype(0x15, 0, 0, 4));
    assert_eq!(cpu.ctx.get_pc(), RESET + 8);
    assert_eq!(cpu.ctx.clock, 2);
    assert!(cpu.ctx.tight_exit);
    assert_eq!(cpu.ctx.branch_pc, 0);
}

#[test]
fn branch_target_with_negative_offset() {
    assert_eq!(btgt(0x1000_0000, 0x8000), 0x0FFE_0000);
    assert_eq!(btgt(0x1000_0000, 0x0001), 0x1000_0004);
}

#[test]
fn jump_target_keeps_top_bits() {
    assert_eq!(jtgt(0x8004_0000, 0x0010_0000), 0x8040_0000);
}

#[test]
fn jal_links_and_jumps() {
    let mut cpu = cpu_with_rom(&[(0x03 << 26) | 0x0010_0000, 0]);
    cpu.run(2);
    assert_eq!(cpu.ctx.regs[31], (RESET + 8) as u64);
    assert_eq!(cpu.ctx.get_pc(), 0x1040_0000);
}

#[test]
fn jr_jumps_to_register() {
    let mut cpu = cpu_with_ram(&[itype(0x09, 0, 7, 0x200), rtype(7, 0, 0, 0, 0x08), 0]);
    cpu.run(3);
    assert_eq!(cpu.ctx.get_pc(), 0x200);
}

#[test]
fn multu_of_all_ones() {
    let (hi, lo) = mul_div(0x19, 0xFFFF_FFFF, 0xFFFF_FFFF);
    // the product is 0xFFFF_FFFE_0000_0001; each half is sign-extended
    assert_eq!(hi, 0xFFFF_FFFF_FFFF_FFFE);
    assert_eq!(lo, 0x0000_0000_0000_0001);
}

#[test]
fn multu_through_the_cpu() {
    let mut cpu = cpu_with_ram(&[
        itype(0x09, 0, 1, 0xFFFF),
        itype(0x09, 0, 2, 0xFFFF),
        rtype(1, 2, 0, 0, 0x19),
        rtype(0, 0, 3, 0, 0x10),
        rtype(0, 0, 4, 0, 0x12),
    ]);
    cpu.run(5);
    assert_eq!(cpu.ctx.hi, 0xFFFF_FFFF_FFFF_FFFE);
    assert_eq!(cpu.ctx.lo, 1);
    assert_eq!(cpu.ctx.regs[3], 0xFFFF_FFFF_FFFF_FFFE);
    assert_eq!(cpu.ctx.regs[4], 1);
}

#[test]
fn mult_signed() {
    let (hi, lo) = mul_div(0x18, 0xFFFF_FFFF_FFFF_FFFE, 3); // -2 * 3
    assert_eq!(hi, 0xFFFF_FFFF_FFFF_FFFF);
    assert_eq!(lo, 0xFFFF_FFFF_FFFF_FFFA);
}

#[test]
fn dmult_and_dmultu() {
    let (hi, lo) = mul_div(0x1D, u64::MAX, 2);
    assert_eq!((hi, lo), (1, 0xFFFF_FFFF_FFFF_FFFE));
    let (hi, lo) = mul_div(0x1C, u64::MAX, 2); // -1 * 2
    assert_eq!((hi, lo), (u64::MAX, 0xFFFF_FFFF_FFFF_FFFE));
}

#[test]
fn divisions() {
    // DIV -7 / 2: quotient -3, remainder -1
    let (hi, lo) = mul_div(0x1A, 0xFFFF_FFF9, 2);
    assert_eq!(lo, 0xFFFF_FFFF_FFFF_FFFD);
    assert_eq!(hi, 0xFFFF_FFFF_FFFF_FFFF);
    // DIVU 7 / 2
    assert_eq!(mul_div(0x1B, 7, 2), (1, 3));
    // DIV of the most negative word by -1 wraps
    let (hi, lo) = mul_div(0x1A, 0x8000_0000, 0xFFFF_FFFF);
    assert_eq!(lo, 0xFFFF_FFFF_8000_0000);
    assert_eq!(hi, 0);
    // DDIV -9 / 4 and DDIVU
    assert_eq!(mul_div(0x1E, (-9i64) as u64, 4), ((-1i64) as u64, (-2i64) as u64));
    assert_eq!(mul_div(0x1F, 9, 4), (1, 2));
}

#[test]
fn division_by_zero_does_not_trap() {
    assert_eq!(mul_div(0x1B, 5, 0), (5, u64::MAX));
    assert_eq!(mul_div(0x1A, 0xFFFF_FFFB, 0), (0xFFFF_FFFF_FFFF_FFFB, 1));
    assert_eq!(mul_div(0x1A, 5, 0), (5, u64::MAX));
    assert_eq!(mul_div(0x1F, 5, 0), (5, u64::MAX));
    assert_eq!(mul_div(0x1E, (-5i64) as u64, 0), ((-5i64) as u64, 1));
}

#[test]
fn alu32_results_are_sign_extended() {
    // ADDU 0x7FFF_FFFF + 1
    assert_eq!(alu_special(0x21, 0, 0x7FFF_FFFF, 1), 0xFFFF_FFFF_8000_0000);
    // SUBU 0 - 1
    assert_eq!(alu_special(0x23, 0, 0, 1), u64::MAX);
    // SLL 1 << 31
    assert_eq!(alu_special(0x00, 31, 0, 1), 0xFFFF_FFFF_8000_0000);
    // SRL only sees the low word
    assert_eq!(alu_special(0x02, 4, 0, 0xFFFF_FFFF_0000_0010), 1);
    // SRA of a negative word
    assert_eq!(alu_special(0x03, 4, 0, 0x8000_0000), 0xFFFF_FFFF_F800_0000);
    // SLLV shifts by the low five bits of rs
    assert_eq!(alu_special(0x04, 0, 33, 1), 2);
    // ADDIU wraps and sign-extends
    assert_eq!(alu_imm(0x09, 0x7FFF_FFFF, 1), 0xFFFF_FFFF_8000_0000);
}

#[test]
fn alu64_and_compares() {
    assert_eq!(alu_special(0x24, 0, 0xF0F0, 0xFF00), 0xF000);
    assert_eq!(alu_special(0x27, 0, 0, 0), u64::MAX);
    assert_eq!(alu_special(0x2A, 0, 0xFFFF_FFFF, 0), 1); // SLT -1 < 0
    assert_eq!(alu_special(0x2B, 0, 0xFFFF_FFFF, 0), 0); // SLTU
    assert_eq!(alu_special(0x2D, 0, u64::MAX, 2), 1); // DADDU wraps
    assert_eq!(alu_special(0x3C, 1, 0, 1), 1 << 33); // DSLL32
    assert_eq!(alu_special(0x3F, 0, 0, 0x8000_0000_0000_0000), 0xFFFF_FFFF_8000_0000); // DSRA32
    assert_eq!(alu_special(0x17, 0, 4, u64::MAX), u64::MAX); // DSRAV
    assert_eq!(alu_imm(0x0B, 5, 0xFFFF), 1); // SLTIU against 0xFFFF_FFFF
    assert_eq!(alu_imm(0x0A, 5, 0xFFFF), 0); // SLTI 5 < -1
    assert_eq!(alu_imm(0x0C, u64::MAX, 0x8001), 0x8001); // ANDI zero-extends
    assert_eq!(alu_imm(0x19, 1, 0xFFFF), 0); // DADDIU 1 + -1
}

#[test]
fn register_zero_stays_zero() {
    let mut cpu = cpu_with_ram(&[itype(0x09, 0, 0, 5), rtype(0, 0, 1, 0, 0x25)]);
    cpu.run(2);
    assert_eq!(cpu.ctx.gpr(0), 0);
    assert_eq!(cpu.ctx.regs[0], 0);
    assert_eq!(cpu.ctx.regs[1], 0);
}

#[test]
fn unaligned_round_trip() {
    let v: u32 = 0xA1B2_C3D4;
    for off in 0u32..4 {
        let mut cpu = cpu_with_ram(&[
            itype(0x2A, 2, 1, off),     // SWL r1, off(r2)
            itype(0x2E, 2, 1, off + 3), // SWR r1, off+3(r2)
            itype(0x22, 2, 3, off),     // LWL r3, off(r2)
            itype(0x26, 2, 3, off + 3), // LWR r3, off+3(r2)
        ]);
        cpu.ctx.regs[1] = v as u64;
        cpu.ctx.regs[2] = 0x400;
        cpu.ctx.regs[3] = 0x1111_1111;
        for i in 0..12 {
            cpu.bus.ram[0x400 + i] = 0xEE;
        }
        cpu.run(4);
        assert_eq!(cpu.ctx.regs[3], 0xFFFF_FFFF_A1B2_C3D4, "offset {}", off);
        let at = 0x400 + off as usize;
        assert_eq!(&cpu.bus.ram[at..at + 4], &[0xA1, 0xB2, 0xC3, 0xD4]);
    }
}

#[test]
fn loads_and_stores() {
    let mut cpu = cpu_with_ram(&[
        itype(0x2B, 2, 1, 0),  // SW r1, 0(r2)
        itype(0x20, 2, 3, 0),  // LB r3
        itype(0x24, 2, 4, 0),  // LBU r4
        itype(0x21, 2, 5, 2),  // LH r5, 2(r2)
        itype(0x25, 2, 6, 0),  // LHU r6
        itype(0x23, 2, 7, 1),  // LW r7 at an unaligned address reads the aligned word
        itype(0x3F, 2, 1, 8),  // SD r1, 8(r2)
        itype(0x37, 2, 8, 8),  // LD r8
        itype(0x28, 2, 1, 16), // SB r1, 16(r2)
        itype(0x27, 2, 9, 16), // LWU r9
    ]);
    cpu.ctx.regs[1] = 0x0123_4567_89AB_CDEF;
    cpu.ctx.regs[2] = 0x400;
    cpu.run(10);
    assert_eq!(&cpu.bus.ram[0x400..0x404], &[0x89, 0xAB, 0xCD, 0xEF]);
    assert_eq!(cpu.ctx.regs[3], 0xFFFF_FFFF_FFFF_FF89);
    assert_eq!(cpu.ctx.regs[4], 0x89);
    assert_eq!(cpu.ctx.regs[5], 0xFFFF_FFFF_FFFF_CDEF);
    assert_eq!(cpu.ctx.regs[6], 0x89AB);
    assert_eq!(cpu.ctx.regs[7], 0xFFFF_FFFF_89AB_CDEF);
    assert_eq!(cpu.ctx.regs[8], 0x0123_4567_89AB_CDEF);
    assert_eq!(cpu.ctx.regs[9], 0xEF00_0000);
}

#[test]
fn stores_to_rom_are_dropped() {
    let mut cpu = cpu_with_rom(&[itype(0x2B, 1, 0, 0), itype(0x23, 1, 2, 0)]);
    cpu.ctx.regs[1] = RESET as u64;
    cpu.run(2);
    assert_eq!(cpu.ctx.regs[2], itype(0x2B, 1, 0, 0) as i32 as i64 as u64);
}

/// A Cop0 that records the exceptions it is asked to enter.
struct Recorder {
    seen: Vec<Exception>,
    pending: bool,
}

impl Cop for Recorder {
    fn reg(&self, _idx: usize) -> u128 {
        0
    }
    fn set_reg(&mut self, _idx: usize, _val: u128) {}
    fn op(&mut self, cpu: &mut CpuContext, _opcode: u32) {
        cpu.regs[9] = 99;
    }
}

impl Cop0 for Recorder {
    fn pending_int(&self) -> bool {
        self.pending
    }
    fn exception(&mut self, ctx: &mut CpuContext, exc: Exception) {
        if exc == Exception::INT {
            self.pending = false;
        }
        self.seen.push(exc);
        ctx.set_pc(0x300);
    }
}

/// A coprocessor with a register file.
struct Regs {
    regs: [u128; 32],
}

impl Cop for Regs {
    fn reg(&self, idx: usize) -> u128 {
        self.regs[idx]
    }
    fn set_reg(&mut self, idx: usize, val: u128) {
        self.regs[idx] = val;
    }
    fn op(&mut self, _cpu: &mut CpuContext, _opcode: u32) {}
}

type Recording = Cpu<Recorder, Regs, NoCop, NoCop>;

fn recording(words: &[u32]) -> Recording {
    let mut cpu: Recording = Cpu::new(Bus::new(0x1000, Vec::new()));
    for (i, w) in words.iter().enumerate() {
        for (j, b) in w.to_be_bytes().iter().enumerate() {
            cpu.bus.ram[0x100 + 4 * i + j] = *b;
        }
    }
    cpu.ctx.set_pc(0x100);
    cpu.set_cop0(Recorder { seen: Vec::new(), pending: false });
    cpu
}

#[test]
fn break_raises_bp() {
    let mut cpu = recording(&[rtype(0, 0, 0, 0, 0x0D)]);
    cpu.run(1);
    assert_eq!(cpu.cop0.as_ref().unwrap().seen, vec![Exception::BP]);
    assert_eq!(cpu.ctx.get_pc(), 0x300);
}

#[test]
fn add_overflow_traps_and_keeps_register() {
    let mut cpu = recording(&[rtype(1, 1, 2, 0, 0x20)]);
    cpu.ctx.regs[1] = 0x7FFF_FFFF;
    cpu.ctx.regs[2] = 42;
    cpu.run(1);
    assert_eq!(cpu.cop0.as_ref().unwrap().seen, vec![Exception::OV]);
    assert_eq!(cpu.ctx.regs[2], 42);
}

#[test]
fn add_without_overflow() {
    let mut cpu = recording(&[rtype(1, 1, 2, 0, 0x20), itype(0x08, 1, 3, 0xFFFF)]);
    cpu.ctx.regs[1] = 0x3FFF_FFFF;
    cpu.run(2);
    assert_eq!(cpu.ctx.regs[2], 0x7FFF_FFFE);
    assert_eq!(cpu.ctx.regs[3], 0x3FFF_FFFE);
    assert!(cpu.cop0.as_ref().unwrap().seen.is_empty());
}

#[test]
fn dsub_overflow_traps() {
    let mut cpu = recording(&[rtype(1, 2, 3, 0, 0x2E)]);
    cpu.ctx.regs[1] = 0x8000_0000_0000_0000;
    cpu.ctx.regs[2] = 1;
    cpu.run(1);
    assert_eq!(cpu.cop0.as_ref().unwrap().seen, vec![Exception::OV]);
    assert_eq!(cpu.ctx.regs[3], 0);
}

#[test]
fn reserved_opcode_raises_ri() {
    let mut cpu = recording(&[0x6800_0000]);
    cpu.run(1);
    assert_eq!(cpu.cop0.as_ref().unwrap().seen, vec![Exception::RI]);
    assert_eq!(Exception::RI.code(), 0x0A);
    assert_eq!(Exception::BP.code(), 0x09);
    assert_eq!(Exception::NMI.code(), 0x102);
}

#[test]
fn pending_interrupt_is_taken_first() {
    let mut cpu = recording(&[0]);
    cpu.cop0.as_mut().unwrap().pending = true;
    cpu.run(1);
    assert_eq!(cpu.cop0.as_ref().unwrap().seen, vec![Exception::INT]);
    // the instruction at the handler ran
    assert_eq!(cpu.ctx.clock, 1);
    assert_eq!(cpu.ctx.get_pc(), 0x304);
}

#[test]
fn reset_goes_through_cop0() {
    let mut cpu = recording(&[0]);
    cpu.reset();
    assert_eq!(cpu.cop0.as_ref().unwrap().seen, vec![Exception::RESET]);
}

#[test]
fn cop_ops_reach_the_coprocessor() {
    let mut cpu = recording(&[0x4000_0000, 0x4400_0000]);
    cpu.run(2);
    assert_eq!(cpu.ctx.regs[9], 99);
    assert_eq!(cpu.ctx.clock, 2);
}

#[test]
fn cop_loads_and_stores() {
    let mut cpu = recording(&[
        itype(0x31, 2, 5, 0), // LWC1 $5, 0(r2)
        itype(0x35, 2, 6, 0), // LDC1 $6, 0(r2)
        itype(0x39, 2, 5, 8), // SWC1 $5, 8(r2)
        itype(0x3D, 2, 6, 16), // SDC1 $6, 16(r2)
    ]);
    cpu.set_cop1(Regs { regs: [0; 32] });
    cpu.ctx.regs[2] = 0x400;
    for (i, b) in [1u8, 2, 3, 4, 5, 6, 7, 8].iter().enumerate() {
        cpu.bus.ram[0x400 + i] = *b;
    }
    cpu.run(4);
    let c1 = cpu.cop1.as_ref().unwrap();
    assert_eq!(c1.regs[5], 0x0102_0304);
    assert_eq!(c1.regs[6], 0x0102_0304_0506_0708);
    assert_eq!(&cpu.bus.ram[0x408..0x40C], &[1, 2, 3, 4]);
    assert_eq!(&cpu.bus.ram[0x410..0x418], &[1, 2, 3, 4, 5, 6, 7, 8]);
}

#[test]
fn missing_cop_is_ignored() {
    let mut cpu = cpu_with_ram(&[0x4800_0000, itype(0x32, 0, 1, 0)]);
    cpu.run(2);
    assert_eq!(cpu.ctx.clock, 2);
    assert_eq!(cpu.ctx.get_pc(), 0x108);
    assert!(cpu.cop2().is_none());
}

#[test]
fn set_line_raises_tight_exit() {
    let mut ctx = CpuContext::new();
    ctx.set_line(Line::IP3, true);
    assert!(ctx.tight_exit);
    assert_eq!(ctx.lines, 0x08);
    ctx.set_line(Line::IP3, true);
    assert_eq!(ctx.lines, 0x08);
    ctx.tight_exit = false;
    ctx.set_line(Line::IP7, true);
    assert!(ctx.tight_exit);
    ctx.tight_exit = false;
    ctx.set_line(Line::IP3, false);
    assert_eq!(ctx.lines, 0x80);
    assert!(!ctx.tight_exit);
    assert!(ctx.line(Line::IP7));
    assert!(!ctx.line(Line::IP3));
}

#[test]
fn branch_and_set_pc() {
    let mut ctx = CpuContext::new();
    ctx.branch(true, 0x1234, false);
    assert_eq!(ctx.branch_pc, 0x1234);
    assert!(ctx.tight_exit);
    assert_eq!(ctx.get_pc(), RESET);
    ctx.set_pc(0x80);
    assert_eq!(ctx.branch_pc, 0);
    assert_eq!(ctx.get_pc(), 0x80);
    ctx.tight_exit = false;
    ctx.branch(false, 0x1234, false);
    assert!(!ctx.tight_exit);
    assert_eq!(ctx.get_pc(), 0x80);
    ctx.branch(false, 0x1234, true);
    assert_eq!(ctx.get_pc(), 0x84);
    assert_eq!(ctx.clock, 1);
}

#[test]
fn fetch_reuses_cached_run() {
    let mut cpu = cpu_with_rom(&[0, 0, 0, 0]);
    let first = cpu.fetch(RESET);
    assert_eq!(first.base, RESET);
    assert_eq!(first.words, 4);
    assert_eq!(cpu.last_fetch_addr, RESET);
    let again = cpu.fetch(RESET);
    assert_eq!((again.base, again.words), (first.base, first.words));
    // the run reads lazily: a word changed after the fetch is seen
    cpu.bus.rom[3] = 7;
    assert_eq!(again.read(&cpu.bus), 7);
    let other = cpu.fetch(RESET + 8);
    assert_eq!((other.base, other.words), (RESET + 8, 2));
    assert_eq!(cpu.last_fetch_addr, RESET + 8);
}

#[test]
fn fetch_masks_to_the_physical_window() {
    let mut cpu = cpu_with_rom(&[0, 0]);
    let h = cpu.fetch(0xBFC0_0003);
    assert_eq!(h.base, RESET);
    assert_eq!(h.words, 2);
}

#[test]
fn run_stops_at_the_deadline() {
    let mut cpu = cpu_with_ram(&[0; 16]);
    cpu.run(5);
    assert_eq!(cpu.ctx.clock, 5);
    cpu.run(3);
    assert_eq!(cpu.ctx.clock, 5);
    cpu.run(7);
    assert_eq!(cpu.ctx.clock, 7);
    assert_eq!(cpu.ctx.get_pc(), 0x100 + 28);
}
