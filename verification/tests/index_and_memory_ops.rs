//! The index register, binary-coded-decimal spread and bulk register
//! store/load.

use rusty8::Chip8;

fn run(rom: &[u8], steps: usize) -> Chip8 {
    let mut c8 = Chip8::new();
    c8.load(rom);
    let input = [false; 16];
    let mut out = [[false; 32]; 64];
    for _ in 0..steps {
        c8.step(&input, &mut out);
    }
    c8
}

#[test]
fn load_index_immediate() {
    let c8 = run(&[0xA1, 0x23], 1);
    assert_eq!(c8.index_register(), 0x123);
}

#[test]
fn add_register_into_index() {
    let c8 = run(&[0xA0, 0x10, 0x60, 0x05, 0xF0, 0x1E], 3);
    assert_eq!(c8.index_register(), 0x15);
}

#[test]
fn font_lookup_points_at_the_glyph() {
    // Glyph 0xA sits at offset 10 * 5 = 50.
    let c8 = run(&[0x60, 0x0A, 0xF0, 0x29], 2);
    assert_eq!(c8.index_register(), 50);
    assert_eq!(c8.read(50), 0xF0);
}

#[test]
fn bcd_spread_writes_three_digits() {
    // V0 = 234; I = 0x300; spread.
    let c8 = run(&[0x60, 0xEA, 0xA3, 0x00, 0xF0, 0x33], 3);
    assert_eq!(c8.read(0x300), 2);
    assert_eq!(c8.read(0x301), 3);
    assert_eq!(c8.read(0x302), 4);
}

#[test]
fn bcd_spread_of_small_values_pads_with_zeros() {
    let c8 = run(&[0x60, 0x07, 0xA3, 0x00, 0xF0, 0x33], 3);
    assert_eq!(c8.read(0x300), 0);
    assert_eq!(c8.read(0x301), 0);
    assert_eq!(c8.read(0x302), 7);
}

#[test]
fn bulk_store_writes_registers_zero_through_x() {
    // V0 = 7, V1 = 9, V2 = 11; store V0..=V1 at I.
    let c8 = run(
        &[0x60, 0x07, 0x61, 0x09, 0x62, 0x0B, 0xA3, 0x00, 0xF1, 0x55],
        5,
    );
    assert_eq!(c8.read(0x300), 7);
    assert_eq!(c8.read(0x301), 9);
    // The store stops at register X inclusive: V2 was not written.
    assert_eq!(c8.read(0x302), 0);
}

#[test]
fn bulk_load_reads_registers_zero_through_x() {
    // Memory 0x300.. holds 5, 6; load V0..=V1 from I.
    let mut c8 = Chip8::new();
    c8.write_sequence(0x300, &[5, 6, 7]);
    c8.load(&[0xA3, 0x00, 0xF1, 0x65]);
    let input = [false; 16];
    let mut out = [[false; 32]; 64];
    c8.step(&input, &mut out);
    c8.step(&input, &mut out);
    assert_eq!(c8.register(0), 5);
    assert_eq!(c8.register(1), 6);
    // The load stops at register X inclusive: V2 keeps its value.
    assert_eq!(c8.register(2), 0);
}

#[test]
fn bulk_store_then_load_round_trips() {
    let rom = [
        0x60, 0x11, // V0 = 0x11
        0x61, 0x22, // V1 = 0x22
        0x62, 0x33, // V2 = 0x33
        0xA3, 0x00, // I = 0x300
        0xF2, 0x55, // store V0..=V2
        0x60, 0x00, // clobber V0
        0x61, 0x00, // clobber V1
        0x62, 0x00, // clobber V2
        0xF2, 0x65, // load V0..=V2 back
    ];
    let c8 = run(&rom, 9);
    assert_eq!(c8.register(0), 0x11);
    assert_eq!(c8.register(1), 0x22);
    assert_eq!(c8.register(2), 0x33);
}
