//! Jumps, conditional skips and the decoder's field extraction.

use rusty8::{Chip8, Instruction};

fn run(rom: &[u8], steps: usize) -> Chip8 {
    let mut c8 = Chip8::new();
    c8.load(rom);
    let input = [false; 16];
    let mut out = [[false; 32]; 64];
    for _ in 0..steps {
        c8.step(&input, &mut out);
    }
    c8
}

#[test]
fn decoder_extracts_all_fields() {
    let instr = Instruction { opcode: 0xD123 };
    assert_eq!(instr.c(), 0xD);
    assert_eq!(instr.x(), 0x1);
    assert_eq!(instr.y(), 0x2);
    assert_eq!(instr.n(), 0x3);
    assert_eq!(instr.nn(), 0x23);
    assert_eq!(instr.nnn(), 0x123);
}

#[test]
fn jump_sets_pc() {
    let c8 = run(&[0x12, 0x34], 1);
    assert_eq!(c8.program_counter(), 0x234);
}

#[test]
fn indexed_jump_adds_register_zero() {
    let c8 = run(&[0x60, 0x10, 0xB3, 0x00], 2);
    assert_eq!(c8.program_counter(), 0x310);
}

#[test]
fn skip_if_equal_immediate() {
    // V0 = 7; skip taken: pc passes over the next instruction.
    let c8 = run(&[0x60, 0x07, 0x30, 0x07], 2);
    assert_eq!(c8.program_counter(), 0x206);
    // Not equal: no skip.
    let c8 = run(&[0x60, 0x07, 0x30, 0x08], 2);
    assert_eq!(c8.program_counter(), 0x204);
}

#[test]
fn skip_if_not_equal_immediate() {
    let c8 = run(&[0x60, 0x07, 0x40, 0x08], 2);
    assert_eq!(c8.program_counter(), 0x206);
    let c8 = run(&[0x60, 0x07, 0x40, 0x07], 2);
    assert_eq!(c8.program_counter(), 0x204);
}

#[test]
fn skip_if_registers_equal_or_not() {
    let c8 = run(&[0x60, 0x07, 0x61, 0x07, 0x50, 0x10], 3);
    assert_eq!(c8.program_counter(), 0x208);
    let c8 = run(&[0x60, 0x07, 0x61, 0x08, 0x50, 0x10], 3);
    assert_eq!(c8.program_counter(), 0x206);
    let c8 = run(&[0x60, 0x07, 0x61, 0x08, 0x90, 0x10], 3);
    assert_eq!(c8.program_counter(), 0x208);
    let c8 = run(&[0x60, 0x07, 0x61, 0x07, 0x90, 0x10], 3);
    assert_eq!(c8.program_counter(), 0x206);
}

#[test]
fn unknown_opcodes_are_no_ops() {
    // Class-5 with a nonzero low nibble matches nothing.
    let c8 = run(&[0x50, 0x11], 1);
    assert_eq!(c8.program_counter(), 0x202);
    assert!(c8.is_well_formed());
}

#[test]
fn stepping_through_zero_memory_advances_pc() {
    let c8 = run(&[], 3);
    assert_eq!(c8.program_counter(), 0x206);
}

#[test]
fn fetch_combines_two_bytes_and_advances() {
    let mut c8 = Chip8::new();
    c8.load(&[0xD1, 0x23]);
    let instr = c8.next_instruction();
    assert_eq!(instr.opcode, 0xD123);
    assert_eq!(c8.program_counter(), 0x202);
}

#[test]
fn pc_wraps_at_the_top_of_the_address_space() {
    // Jump near the end of memory, then no-op through the zero bytes beyond
    // it until the program counter wraps to 0.
    let mut c8 = Chip8::new();
    c8.load(&[0x1F, 0xFE]);
    let input = [false; 16];
    let mut out = [[false; 32]; 64];
    c8.step(&input, &mut out);
    assert_eq!(c8.program_counter(), 0xFFE);
    for _ in 0..(0x10000 - 0xFFE) / 2 {
        c8.step(&input, &mut out);
    }
    assert_eq!(c8.program_counter(), 0);
    assert!(c8.is_well_formed());
}
