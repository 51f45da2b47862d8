//! The bounded LIFO call stack.

use rusty8::Chip8;

#[test]
fn sixteen_pushes_pop_in_reverse_order() {
    let mut c8 = Chip8::new();
    for k in 0..16u16 {
        c8.push(100 + k);
    }
    assert_eq!(c8.stack_pointer(), 16);
    for k in (0..16u16).rev() {
        assert_eq!(c8.pop(), 100 + k);
    }
    assert_eq!(c8.stack_pointer(), 0);
}

#[test]
fn seventeenth_push_is_dropped() {
    let mut c8 = Chip8::new();
    for k in 0..16u16 {
        c8.push(100 + k);
    }
    c8.push(999);
    assert_eq!(c8.stack_pointer(), 16);
    assert_eq!(c8.pop(), 115);
}

#[test]
fn pop_of_empty_stack_yields_zero_and_keeps_the_pointer() {
    let mut c8 = Chip8::new();
    assert_eq!(c8.pop(), 0);
    assert_eq!(c8.stack_pointer(), 0);
    assert!(c8.is_well_formed());
}

#[test]
fn call_pushes_return_address_and_ret_pops_it() {
    let mut c8 = Chip8::new();
    let mut rom = vec![0; 16];
    // 0x200: CALL 0x208; 0x208: RET.
    rom[0] = 0x22;
    rom[1] = 0x08;
    rom[8] = 0x00;
    rom[9] = 0xEE;
    c8.load(&rom);
    let input = [false; 16];
    let mut out = [[false; 32]; 64];
    c8.step(&input, &mut out);
    assert_eq!(c8.program_counter(), 0x208);
    assert_eq!(c8.stack_pointer(), 1);
    c8.step(&input, &mut out);
    assert_eq!(c8.program_counter(), 0x202);
    assert_eq!(c8.stack_pointer(), 0);
}

#[test]
fn ret_on_empty_stack_jumps_to_zero() {
    let mut c8 = Chip8::new();
    c8.load(&[0x00, 0xEE]);
    let input = [false; 16];
    let mut out = [[false; 32]; 64];
    c8.step(&input, &mut out);
    assert_eq!(c8.program_counter(), 0);
    assert_eq!(c8.stack_pointer(), 0);
}
