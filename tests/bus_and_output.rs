use n64core::bus::{Bus, FetchHandle};
use n64core::output::{FpsCounter, OutputConfig};

#[test]
fn bus_big_endian_access() {
    let mut bus = Bus::new(16, vec![0xDE, 0xAD, 0xBE, 0xEF]);
    bus.write(4, 4, 0x1122_3344);
    assert_eq!(&bus.ram[4..8], &[0x11, 0x22, 0x33, 0x44]);
    assert_eq!(bus.read(4, 2), 0x1122);
    assert_eq!(bus.read(4, 8), 0x1122_3344_0000_0000);
    assert_eq!(bus.read(0x1FC0_0000, 4), 0xDEAD_BEEF);
    assert_eq!(bus.read_byte(0x1FC0_0001), 0xAD);
    // unmapped memory reads as zero and drops writes
    bus.write(0x100, 4, 0xFFFF_FFFF);
    assert_eq!(bus.read(0x100, 4), 0);
    // a write that runs past the end of RAM keeps the bytes that fit
    bus.write(14, 4, 0xAABB_CCDD);
    assert_eq!(&bus.ram[14..16], &[0xAA, 0xBB]);
    assert_eq!(bus.ram.len(), 16);
}

#[test]
fn bus_fetch_runs() {
    let bus = Bus::new(64, vec![0; 12]);
    let h = bus.fetch_read(0x10);
    assert_eq!((h.base, h.words), (0x10, 12));
    let h = bus.fetch_read(0x1FC0_0004);
    assert_eq!((h.base, h.words), (0x1FC0_0004, 2));
    let h = bus.fetch_read(0x0100_0000);
    assert_eq!(h.words, 1);
}

#[test]
fn fetch_iteration() {
    let mut bus = Bus::new(16, Vec::new());
    bus.write(0, 4, 0x0102_0304);
    bus.write(4, 4, 0x0506_0708);
    let h = FetchHandle { base: 0, words: 2 };
    assert_eq!(h.read(&bus), 0x0102_0304);
    let mut it = h.iter();
    assert_eq!(it.next(&bus), Some(0x0102_0304));
    assert_eq!(it.next(&bus), Some(0x0506_0708));
    assert_eq!(it.next(&bus), None);
}

#[test]
fn fps_counter_reports_each_second() {
    let mut fps = FpsCounter::new();
    assert_eq!(fps.frame(false), None);
    assert_eq!(fps.frame(false), None);
    assert_eq!(fps.frame(true), Some(3));
    assert_eq!(fps.frames, 0);
    assert_eq!(fps.frame(true), Some(1));
}

#[test]
fn output_config_holds_settings() {
    let cfg = OutputConfig {
        window_title: String::from("emu"),
        width: 640,
        height: 480,
        fps: 60,
        enforce_speed: false,
    };
    assert_eq!(cfg.width * cfg.height, 307_200);
}
