//! Timers, key-state skips and the wait-for-key state machine.

use rusty8::Chip8;

fn load(rom: &[u8]) -> Chip8 {
    let mut c8 = Chip8::new();
    c8.load(rom);
    c8
}

#[test]
fn sound_timer_ticks_down_and_reports_buzz() {
    // V0 = 2; sound timer = V0.
    let mut c8 = load(&[0x60, 0x02, 0xF0, 0x18]);
    let input = [false; 16];
    let mut out = [[false; 32]; 64];
    c8.step(&input, &mut out);
    c8.step(&input, &mut out);
    assert_eq!(c8.sound_timer(), 2);
    assert!(c8.step_timers());
    assert!(c8.step_timers());
    assert!(!c8.step_timers());
    assert_eq!(c8.sound_timer(), 0);
}

#[test]
fn delay_timer_ticks_down_and_floors_at_zero() {
    let mut c8 = load(&[0x60, 0x02, 0xF0, 0x15]);
    let input = [false; 16];
    let mut out = [[false; 32]; 64];
    c8.step(&input, &mut out);
    c8.step(&input, &mut out);
    assert_eq!(c8.delay_timer(), 2);
    c8.step_timers();
    c8.step_timers();
    c8.step_timers();
    assert_eq!(c8.delay_timer(), 0);
}

#[test]
fn delay_timer_reads_back_into_a_register() {
    let mut c8 = load(&[0x60, 0x05, 0xF0, 0x15, 0xF1, 0x07]);
    let input = [false; 16];
    let mut out = [[false; 32]; 64];
    for _ in 0..3 {
        c8.step(&input, &mut out);
    }
    assert_eq!(c8.register(1), 5);
}

#[test]
fn skip_if_key_down_and_up() {
    let mut input = [false; 16];
    input[7] = true;
    let mut out = [[false; 32]; 64];

    // V0 = 7; SKP V0 with key 7 down: skip.
    let mut c8 = load(&[0x60, 0x07, 0xE0, 0x9E]);
    c8.step(&input, &mut out);
    c8.step(&input, &mut out);
    assert_eq!(c8.program_counter(), 0x206);

    // SKNP V0 with key 7 down: no skip.
    let mut c8 = load(&[0x60, 0x07, 0xE0, 0xA1]);
    c8.step(&input, &mut out);
    c8.step(&input, &mut out);
    assert_eq!(c8.program_counter(), 0x204);

    // SKP V0 with no key down: no skip.
    let idle = [false; 16];
    let mut c8 = load(&[0x60, 0x07, 0xE0, 0x9E]);
    c8.step(&idle, &mut out);
    c8.step(&idle, &mut out);
    assert_eq!(c8.program_counter(), 0x204);
}

#[test]
fn key_code_beyond_the_vector_is_never_down() {
    let input = [true; 16];
    let mut out = [[false; 32]; 64];
    // V0 = 0x20: no key has that code, so SKNP skips.
    let mut c8 = load(&[0x60, 0x20, 0xE0, 0xA1]);
    c8.step(&input, &mut out);
    c8.step(&input, &mut out);
    assert_eq!(c8.program_counter(), 0x206);
}

#[test]
fn wait_for_key_blocks_until_a_key_is_down() {
    // LD V1, K.
    let mut c8 = load(&[0xF1, 0x0A]);
    let idle = [false; 16];
    let mut out = [[false; 32]; 64];

    c8.step(&idle, &mut out);
    assert!(c8.is_waiting());
    assert_eq!(c8.program_counter(), 0x202);

    // Steps with no key down change nothing.
    for _ in 0..5 {
        c8.step(&idle, &mut out);
        assert!(c8.is_waiting());
        assert_eq!(c8.program_counter(), 0x202);
        assert_eq!(c8.register(1), 0);
    }

    // The first step that observes a key down writes its code and wakes.
    let mut input = [false; 16];
    input[7] = true;
    c8.step(&input, &mut out);
    assert!(!c8.is_waiting());
    assert_eq!(c8.register(1), 7);
    // The waking step does not fetch: the program counter has not moved.
    assert_eq!(c8.program_counter(), 0x202);

    // The following step fetches normally again.
    c8.step(&idle, &mut out);
    assert_eq!(c8.program_counter(), 0x204);
}

#[test]
fn wait_for_key_takes_the_lowest_key_down() {
    let mut c8 = load(&[0xF1, 0x0A]);
    let mut out = [[false; 32]; 64];
    let idle = [false; 16];
    c8.step(&idle, &mut out);
    let mut input = [false; 16];
    input[3] = true;
    input[9] = true;
    c8.step(&input, &mut out);
    assert_eq!(c8.register(1), 3);
}
