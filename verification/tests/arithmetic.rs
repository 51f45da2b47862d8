//! The arithmetic/logic opcode group: wrapping semantics and the flag
//! register.

use rusty8::Chip8;

/// Load `rom`, run `steps` machine cycles with no key down, and return the
/// machine.
fn run(rom: &[u8], steps: usize) -> Chip8 {
    let mut c8 = Chip8::new();
    c8.load(rom);
    let input = [false; 16];
    let mut out = [[false; 32]; 64];
    for _ in 0..steps {
        c8.step(&input, &mut out);
    }
    c8
}

#[test]
fn add_with_carry_wraps_and_sets_flag() {
    // V0 = 0xFF; V1 = 0x01; V0 += V1.
    let c8 = run(&[0x60, 0xFF, 0x61, 0x01, 0x80, 0x14], 3);
    assert_eq!(c8.register(0), 0x00);
    assert_eq!(c8.register(15), 1);
}

#[test]
fn add_without_carry_clears_flag() {
    let c8 = run(&[0x60, 0x01, 0x61, 0x01, 0x80, 0x14], 3);
    assert_eq!(c8.register(0), 0x02);
    assert_eq!(c8.register(15), 0);
}

#[test]
fn subtract_without_borrow_sets_flag() {
    // V0 = 5; V1 = 3; V0 -= V1.
    let c8 = run(&[0x60, 0x05, 0x61, 0x03, 0x80, 0x15], 3);
    assert_eq!(c8.register(0), 0x02);
    assert_eq!(c8.register(15), 1);
}

#[test]
fn subtract_with_borrow_wraps_and_clears_flag() {
    let c8 = run(&[0x60, 0x03, 0x61, 0x05, 0x80, 0x15], 3);
    assert_eq!(c8.register(0), 0xFE);
    assert_eq!(c8.register(15), 0);
}

#[test]
fn reversed_subtract_uses_its_own_flag_convention() {
    // V0 = 3; V1 = 5; V0 = V1 - V0: no borrow, flag 1.
    let c8 = run(&[0x60, 0x03, 0x61, 0x05, 0x80, 0x17], 3);
    assert_eq!(c8.register(0), 0x02);
    assert_eq!(c8.register(15), 1);
    // V0 = 5; V1 = 3; V0 = V1 - V0: borrow, flag 0.
    let c8 = run(&[0x60, 0x05, 0x61, 0x03, 0x80, 0x17], 3);
    assert_eq!(c8.register(0), 0xFE);
    assert_eq!(c8.register(15), 0);
}

#[test]
fn shift_right_captures_low_bit() {
    let c8 = run(&[0x60, 0x03, 0x80, 0x06], 2);
    assert_eq!(c8.register(0), 0x01);
    assert_eq!(c8.register(15), 1);
}

#[test]
fn shift_left_wraps_and_captures_high_bit() {
    let c8 = run(&[0x60, 0x81, 0x80, 0x0E], 2);
    assert_eq!(c8.register(0), 0x02);
    assert_eq!(c8.register(15), 1);
}

#[test]
fn add_immediate_wraps_without_touching_flag() {
    let c8 = run(&[0x60, 0xFF, 0x70, 0x02], 2);
    assert_eq!(c8.register(0), 0x01);
    assert_eq!(c8.register(15), 0);
}

#[test]
fn bitwise_or_and_xor_and_copy() {
    let c8 = run(&[0x60, 0x0C, 0x61, 0x0A, 0x80, 0x11], 3);
    assert_eq!(c8.register(0), 0x0E);
    let c8 = run(&[0x60, 0x0C, 0x61, 0x0A, 0x80, 0x12], 3);
    assert_eq!(c8.register(0), 0x08);
    let c8 = run(&[0x60, 0x0C, 0x61, 0x0A, 0x80, 0x13], 3);
    assert_eq!(c8.register(0), 0x06);
    let c8 = run(&[0x60, 0x0C, 0x61, 0x0A, 0x80, 0x10], 3);
    assert_eq!(c8.register(0), 0x0A);
}

#[test]
fn random_masked_with_zero_is_zero() {
    // The random byte is ANDed with the immediate; a zero mask pins the
    // result whatever the generator produced.
    let c8 = run(&[0xC1, 0x00], 1);
    assert_eq!(c8.register(1), 0);
}

#[test]
fn random_with_chosen_byte_is_masked() {
    let mut c8 = Chip8::new();
    c8.load(&[0xC1, 0x0F]);
    let input = [false; 16];
    let mut out = [[false; 32]; 64];
    c8.step_with_random(&input, &mut out, 0xAB);
    assert_eq!(c8.register(1), 0x0B);
}
