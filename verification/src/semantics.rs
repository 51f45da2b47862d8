//! The per-opcode execution semantics: pure functions from a machine state,
//! an instruction word, the key-state vector and the framebuffer to the next
//! state and framebuffer. [`step_spec`] is the complete meaning of one call
//! to the machine's step operation.
//!
//! The randomness instruction is parameterised by the byte the generator
//! produced, so the whole transition is a pure function of its arguments.

use vstd::prelude::*;

use crate::instruction::{spec_c, spec_n, spec_nn, spec_nnn, spec_x, spec_y};
use crate::state::{
    first_down, key_down, mem_read, mem_write_seq, wrap16, wrap8, State, DISPLAY_HEIGHT,
    DISPLAY_WIDTH, GENERAL_REG_COUNT, STACK_SIZE,
};

verus! {

/// The framebuffer with every cell off.
pub open spec fn clear_fb() -> Seq<Seq<bool>> {
    Seq::new(DISPLAY_WIDTH as nat, |px: int| Seq::new(DISPLAY_HEIGHT as nat, |py: int| false))
}

/// The program counter advanced past one instruction when `cond` holds: the
/// conditional-skip primitive.
pub open spec fn skip_if(s: State, cond: bool) -> State {
    if cond {
        State { pc: wrap16(s.pc + 2), ..s }
    } else {
        s
    }
}

/// Whether row byte `sy` of the sprite at memory address `i` has its pixel
/// `sx` set (bit 7 is the leftmost pixel of a row).
pub open spec fn sprite_pixel(mem: Seq<u8>, i: u16, sx: int, sy: int) -> bool {
    (mem_read(mem, i + sy) >> ((7 - sx) as u8)) & 1 == 1
}

/// Whether the sprite of `n` rows at memory address `i`, anchored at
/// `(vx, vy)`, has a set pixel landing on cell `(px, py)`.
pub open spec fn draw_hits(mem: Seq<u8>, i: u16, vx: int, vy: int, n: int, px: int, py: int) -> bool {
    &&& vx <= px < vx + 8
    &&& vy <= py < vy + n
    &&& sprite_pixel(mem, i, px - vx, py - vy)
}

/// The framebuffer after the XOR-blit: every cell a set sprite pixel lands on
/// is toggled, every other cell keeps its value. Cells beyond the right or
/// bottom edge do not exist, so the sprite is clipped, never wrapped.
pub open spec fn draw_fb(
    mem: Seq<u8>,
    i: u16,
    vx: int,
    vy: int,
    n: int,
    fb: Seq<Seq<bool>>,
) -> Seq<Seq<bool>> {
    Seq::new(
        fb.len(),
        |px: int|
            Seq::new(
                fb[px].len(),
                |py: int|
                    if draw_hits(mem, i, vx, vy, n, px, py) {
                        !fb[px][py]
                    } else {
                        fb[px][py]
                    },
            ),
    )
}

/// Whether the blit toggles at least one cell that was already on: the
/// collision outcome reported in the flag register.
pub open spec fn draw_collision(
    mem: Seq<u8>,
    i: u16,
    vx: int,
    vy: int,
    n: int,
    fb: Seq<Seq<bool>>,
) -> bool {
    exists|px: int, py: int|
        0 <= px < fb.len() && 0 <= py < fb[px].len() && draw_hits(mem, i, vx, vy, n, px, py)
            && fb[px][py]
}

/// The display instruction: blit `n` sprite rows from the index register's
/// address at an anchor of (register X modulo width, register Y modulo
/// height), and report collision in the flag register.
pub open spec fn exec_draw(s: State, op: u16, fb: Seq<Seq<bool>>) -> (State, Seq<Seq<bool>>) {
    let vx = s.v[spec_x(op) as int] as int % DISPLAY_WIDTH as int;
    let vy = s.v[spec_y(op) as int] as int % DISPLAY_HEIGHT as int;
    let n = spec_n(op) as int;
    let flag: u8 = if draw_collision(s.mem, s.i, vx, vy, n, fb) {
        1
    } else {
        0
    };
    (State { v: s.v.update(15, flag), ..s }, draw_fb(s.mem, s.i, vx, vy, n, fb))
}

/// The register-to-register arithmetic/logic group (class 8), selected by the
/// low nibble. Flag-register writes happen before the destination write, so
/// an instruction whose destination is the flag register itself reads the
/// freshly written flag, exactly as the sequential register file behaves.
pub open spec fn exec_alu(s: State, op: u16) -> State {
    State { v: alu_registers(s.v, op), ..s }
}

/// The register file after an instruction of the arithmetic/logic group.
pub open spec fn alu_registers(v: Seq<u8>, op: u16) -> Seq<u8> {
    let x = spec_x(op) as int;
    let y = spec_y(op) as int;
    let vx = v[x];
    let vy = v[y];
    let n = spec_n(op);
    if n == 0 {
        v.update(x, vy)
    } else if n == 1 {
        v.update(x, vx | vy)
    } else if n == 2 {
        v.update(x, vx & vy)
    } else if n == 3 {
        v.update(x, vx ^ vy)
    } else if n == 4 {
        let flag: u8 = if vx + vy > 255 {
            1
        } else {
            0
        };
        v.update(15, flag).update(x, wrap8(vx + vy))
    } else if n == 5 {
        let flag: u8 = if vx >= vy {
            1
        } else {
            0
        };
        let v1 = v.update(15, flag);
        v1.update(x, wrap8(v1[x] - v1[y]))
    } else if n == 6 {
        let v1 = v.update(15, vx & 1);
        v1.update(x, v1[x] / 2)
    } else if n == 7 {
        let flag: u8 = if vy >= vx {
            1
        } else {
            0
        };
        let v1 = v.update(15, flag);
        v1.update(x, wrap8(v1[y] - v1[x]))
    } else if n == 0xE {
        let v1 = v.update(15, (vx >> 7) & 1);
        v1.update(x, wrap8(v1[x] * 2))
    } else {
        v
    }
}

/// The timer/input/memory group (class F), selected by the low byte.
pub open spec fn exec_misc(s: State, op: u16) -> State {
    let x = spec_x(op) as int;
    let vx = s.v[x];
    let nn = spec_nn(op);
    if nn == 0x07 {
        State { v: s.v.update(x, s.dt), ..s }
    } else if nn == 0x0A {
        State { waiting: Some(spec_x(op) as usize), ..s }
    } else if nn == 0x15 {
        State { dt: vx, ..s }
    } else if nn == 0x18 {
        State { st: vx, ..s }
    } else if nn == 0x1E {
        State { i: wrap16(s.i + vx), ..s }
    } else if nn == 0x29 {
        State { i: (vx * 5) as u16, ..s }
    } else if nn == 0x33 {
        State {
            mem: mem_write_seq(s.mem, s.i as int, seq![vx / 100, (vx / 10) % 10, vx % 10]),
            ..s
        }
    } else if nn == 0x55 {
        State { mem: mem_write_seq(s.mem, s.i as int, s.v.take(x + 1)), ..s }
    } else if nn == 0x65 {
        State {
            v: Seq::new(
                GENERAL_REG_COUNT as nat,
                |k: int|
                    if 0 <= k <= x {
                        mem_read(s.mem, s.i + k)
                    } else {
                        s.v[k]
                    },
            ),
            ..s
        }
    } else {
        s
    }
}

/// Execute one fetched instruction word against a state whose program
/// counter has already advanced past it.
pub open spec fn exec_instr(
    s: State,
    op: u16,
    input: Seq<bool>,
    fb: Seq<Seq<bool>>,
    r: u8,
) -> (State, Seq<Seq<bool>>) {
    let c = spec_c(op);
    let x = spec_x(op) as int;
    let y = spec_y(op) as int;
    if c == 0x0 {
        if op == 0x00E0 {
            (s, clear_fb())
        } else if op == 0x00EE {
            let (s2, addr) = s.pop();
            (State { pc: addr, ..s2 }, fb)
        } else {
            (s, fb)
        }
    } else if c == 0x1 {
        (State { pc: spec_nnn(op), ..s }, fb)
    } else if c == 0x2 {
        (State { pc: spec_nnn(op), ..s.push(s.pc) }, fb)
    } else if c == 0x3 {
        (skip_if(s, s.v[x] == spec_nn(op)), fb)
    } else if c == 0x4 {
        (skip_if(s, s.v[x] != spec_nn(op)), fb)
    } else if c == 0x5 {
        if spec_n(op) == 0 {
            (skip_if(s, s.v[x] == s.v[y]), fb)
        } else {
            (s, fb)
        }
    } else if c == 0x6 {
        (State { v: s.v.update(x, spec_nn(op) as u8), ..s }, fb)
    } else if c == 0x7 {
        (State { v: s.v.update(x, wrap8(s.v[x] + spec_nn(op))), ..s }, fb)
    } else if c == 0x8 {
        (exec_alu(s, op), fb)
    } else if c == 0x9 {
        if spec_n(op) == 0 {
            (skip_if(s, s.v[x] != s.v[y]), fb)
        } else {
            (s, fb)
        }
    } else if c == 0xA {
        (State { i: spec_nnn(op), ..s }, fb)
    } else if c == 0xB {
        (State { pc: (s.v[0] + spec_nnn(op)) as u16, ..s }, fb)
    } else if c == 0xC {
        (State { v: s.v.update(x, r & spec_nn(op) as u8), ..s }, fb)
    } else if c == 0xD {
        exec_draw(s, op, fb)
    } else if c == 0xE {
        if spec_nn(op) == 0x9E {
            (skip_if(s, key_down(input, s.v[x])), fb)
        } else if spec_nn(op) == 0xA1 {
            (skip_if(s, !key_down(input, s.v[x])), fb)
        } else {
            (s, fb)
        }
    } else if c == 0xF {
        (exec_misc(s, op), fb)
    } else {
        (s, fb)
    }
}

/// One call to the machine's step operation, given the byte `r` that the
/// random generator produced.
///
/// While suspended waiting for a key, the machine fetches nothing: if some
/// key is down, the lowest such key code is written to the awaited register
/// and the suspension ends — execution resumes at the next call — and if no
/// key is down the call changes nothing. Otherwise one instruction is
/// fetched, the program counter advances past it, and the instruction
/// executes.
pub open spec fn step_spec(
    s: State,
    input: Seq<bool>,
    fb: Seq<Seq<bool>>,
    r: u8,
) -> (State, Seq<Seq<bool>>) {
    match s.waiting {
        Some(x) => match first_down(input) {
            Some(k) => (State { v: s.v.update(x as int, k as u8), waiting: None, ..s }, fb),
            None => (s, fb),
        },
        None => {
            let (s1, op) = s.fetch();
            exec_instr(s1, op, input, fb, r)
        },
    }
}

} // verus!
