use bit_field::BitField;
use n64core::cpu::{CpuContext, Line as CpuLine};
use n64core::mi::{Line, Mi};

#[test]
fn test_regs_mi() {
    let mut ctx = CpuContext::new();
    let mut mi = Mi::new();

    // setting everything to 0
    mi.write(&mut ctx, 0x00, 0x00);

    // init mode is set by default
    assert_eq!(mi.read(0x00).get_bit(7), true);

    // clear init mode
    mi.write(&mut ctx, 0x00, *0u32.set_bit(7, true));
    assert_eq!(mi.read(0x00).get_bit(7), false);

    // setting init mode
    let val = *0u32.set_bit(8, true);
    mi.write(&mut ctx, 0x00, val);
    assert_eq!(mi.read(0x00).get_bit(7), true);

    // setting rdram reg mode
    let val = *0u32.set_bit(13, true);
    mi.write(&mut ctx, 0x00, val);
    assert_eq!(mi.read(0x00).get_bit(9), true);

    // clear rdram reg mode
    mi.write(&mut ctx, 0x00, *0u32.set_bit(12, true));
    assert_eq!(mi.read(0x00).get_bit(9), false);

    // write init mode
    mi.write(&mut ctx, 0x00, *0u32.set_bits(0..7, 0xF));
    assert_eq!(mi.read(0x00).get_bits(0..7), 0xF);
}

#[test]
fn mi_reset_values() {
    let mi = Mi::new();
    assert_eq!(mi.read(0x00), 0x80);
    assert_eq!(mi.read(0x04), 0x0101_0101);
    assert_eq!(mi.read(0x08), 0);
    assert_eq!(mi.read(0x0C), 0);
    assert_eq!(mi.read(0x10), 0);
}

#[test]
fn mi_init_mode_scenario() {
    let mut ctx = CpuContext::new();
    let mut mi = Mi::new();
    assert_eq!(mi.read(0x00), 0x80);
    mi.write(&mut ctx, 0x00, 1 << 7);
    assert_eq!(mi.read(0x00), 0x00);
    mi.write(&mut ctx, 0x00, 1 << 8);
    assert_eq!(mi.read(0x00) & 0x80, 0x80);
    mi.write(&mut ctx, 0x00, 0x0F);
    assert_eq!(mi.read(0x00) & 0x7F, 0x0F);
}

#[test]
fn mi_init_mode_ebus_bits() {
    let mut ctx = CpuContext::new();
    let mut mi = Mi::new();
    mi.write(&mut ctx, 0x00, 1 << 10);
    assert_eq!(mi.read(0x00), 0x180);
    mi.write(&mut ctx, 0x00, 1 << 9);
    assert_eq!(mi.read(0x00), 0x80);
    // both bits of a pair: set wins
    mi.write(&mut ctx, 0x00, (1 << 12) | (1 << 13));
    assert_eq!(mi.read(0x00), 0x280);
}

#[test]
fn mi_interrupt_aggregation() {
    let mut ctx = CpuContext::new();
    let mut mi = Mi::new();
    // disable every line
    mi.write(&mut ctx, 0x0C, 0x555);
    assert_eq!(mi.read(0x0C), 0);
    // enable VI (bit 3) through its set bit
    mi.write(&mut ctx, 0x0C, 1 << 7);
    assert_eq!(mi.read(0x0C), 0x08);
    assert!(!ctx.line(CpuLine::IP2));
    ctx.tight_exit = false;
    mi.set_line(&mut ctx, Line::VI, true);
    assert_eq!(mi.read(0x08), 0x08);
    assert!(ctx.line(CpuLine::IP2));
    assert!(ctx.tight_exit);
}

#[test]
fn mi_masked_line_stays_low() {
    let mut ctx = CpuContext::new();
    let mut mi = Mi::new();
    mi.set_line(&mut ctx, Line::SP, true);
    assert_eq!(mi.read(0x08), 0x01);
    assert!(!ctx.line(CpuLine::IP2));
    // enabling SP afterwards raises the CPU line
    mi.write(&mut ctx, 0x0C, 1 << 1);
    assert!(ctx.line(CpuLine::IP2));
    // clearing the mask lowers it again
    mi.write(&mut ctx, 0x0C, 1 << 0);
    assert!(!ctx.line(CpuLine::IP2));
    assert_eq!(ctx.lines, 0);
}

#[test]
fn mi_line_follows_device_and_mask() {
    let mut ctx = CpuContext::new();
    let mut mi = Mi::new();
    mi.write(&mut ctx, 0x0C, 1 << 9); // enable PI
    mi.set_line(&mut ctx, Line::PI, true);
    assert!(ctx.line(CpuLine::IP2));
    mi.set_line(&mut ctx, Line::PI, false);
    assert!(!ctx.line(CpuLine::IP2));
    assert_eq!(mi.read(0x0C), 0x10);
}

#[test]
fn mi_pi_mask_clear_hits_pi() {
    let mut ctx = CpuContext::new();
    let mut mi = Mi::new();
    mi.write(&mut ctx, 0x0C, (1 << 7) | (1 << 9)); // VI and PI on
    assert_eq!(mi.read(0x0C), 0x18);
    mi.write(&mut ctx, 0x0C, 1 << 8); // clear PI only
    assert_eq!(mi.read(0x0C), 0x08);
    // the mask write leaves init_mode alone
    assert_eq!(mi.read(0x00), 0x80);
}

#[test]
fn mi_paired_bits_laws() {
    let mut ctx = CpuContext::new();
    let mut mi = Mi::new();
    // set twice equals once
    mi.write(&mut ctx, 0x0C, 1 << 5);
    let once = mi.read(0x0C);
    mi.write(&mut ctx, 0x0C, 1 << 5);
    assert_eq!(mi.read(0x0C), once);
    assert_eq!(once, 0x04);
    // clear then set yields set
    mi.write(&mut ctx, 0x0C, 1 << 10);
    mi.write(&mut ctx, 0x0C, 1 << 11);
    assert_eq!(mi.read(0x0C) & 0x20, 0x20);
    // both at once yields set
    mi.write(&mut ctx, 0x0C, (1 << 2) | (1 << 3));
    assert_eq!(mi.read(0x0C) & 0x02, 0x02);
}

#[test]
fn mi_dp_acknowledge() {
    let mut ctx = CpuContext::new();
    let mut mi = Mi::new();
    mi.write(&mut ctx, 0x0C, 1 << 11); // enable DP
    mi.set_line(&mut ctx, Line::DP, true);
    assert!(ctx.line(CpuLine::IP2));
    assert_eq!(mi.read(0x08), 0x20);
    mi.write(&mut ctx, 0x00, 1 << 11);
    assert_eq!(mi.read(0x08), 0);
    assert!(!ctx.line(CpuLine::IP2));
    // init mode and length untouched
    assert_eq!(mi.read(0x00), 0x80);
}

#[test]
fn mi_readonly_registers() {
    let mut ctx = CpuContext::new();
    let mut mi = Mi::new();
    mi.write(&mut ctx, 0x04, 0xFFFF_FFFF);
    mi.write(&mut ctx, 0x08, 0xFFFF_FFFF);
    assert_eq!(mi.read(0x04), 0x0101_0101);
    assert_eq!(mi.read(0x08), 0);
}

#[test]
fn mi_keeps_only_observable_bits() {
    let mut ctx = CpuContext::new();
    let mut mi = Mi::new();
    mi.write(&mut ctx, 0x0C, 0xFFFF_FFFF);
    assert_eq!(mi.interrupt_mask, 0x3F);
    mi.write(&mut ctx, 0x00, 0xFFFF_FFFF);
    assert_eq!(mi.init_mode, 0x3FF);
    assert!(mi.init_mode < 0x400 && mi.interrupt < 0x40);
}
