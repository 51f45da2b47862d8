//! The mathematical model of the machine: a ghost `State` mirroring the
//! interpreter's memory, register file, call stack, timers and the
//! wait-for-key marker, together with the primitive transitions (memory
//! access, stack push/pop, fetch, timer tick, program load) that the
//! executable code is proved against.
//!
//! Every out-of-range condition degrades to a defined default — reads outside
//! memory yield 0, writes outside memory are dropped, a push onto a full
//! stack is a no-op, a pop from an empty stack yields 0 — so no transition is
//! partial.

use vstd::prelude::*;

verus! {

/// Size of machine memory in bytes.
pub const RAM_SIZE: usize = 4096;

/// Capacity of the call stack, in return addresses.
pub const STACK_SIZE: usize = 16;

/// Number of general-purpose registers.
pub const GENERAL_REG_COUNT: usize = 16;

/// Address at which a loaded program image begins, and the initial program
/// counter.
pub const ROM_LOAD_ADDR: u16 = 0x200;

/// Number of entries in the key-state vector.
pub const INPUT_COUNT: usize = 16;

/// Width of the display surface in cells.
pub const DISPLAY_WIDTH: usize = 64;

/// Height of the display surface in cells.
pub const DISPLAY_HEIGHT: usize = 32;

/// Number of bytes in the built-in font table (16 glyphs of 5 bytes each).
pub const FONT_BYTES: usize = 80;

/// The abstract machine state.
#[verifier::ext_equal]
pub struct State {
    /// Machine memory, `RAM_SIZE` bytes.
    pub mem: Seq<u8>,
    /// Call stack of return addresses; only the first `sp` entries are live.
    pub stack: Seq<u16>,
    /// Program counter.
    pub pc: u16,
    /// The sixteen general-purpose registers; index 0xF doubles as the flag
    /// register.
    pub v: Seq<u8>,
    /// Index register.
    pub i: u16,
    /// Stack pointer, 0 ..= `STACK_SIZE`.
    pub sp: u8,
    /// Delay timer.
    pub dt: u8,
    /// Sound-trigger timer.
    pub st: u8,
    /// When `Some(x)`, the machine is suspended until a key is observed down,
    /// whose code is then written to register `x`.
    pub waiting: Option<usize>,
}

impl State {
    /// Well-formedness: the fixed container sizes, the stack-pointer bound,
    /// and the bound on a pending wait-for-key register index.
    pub open spec fn wf(self) -> bool {
        &&& self.mem.len() == RAM_SIZE
        &&& self.stack.len() == STACK_SIZE
        &&& self.v.len() == GENERAL_REG_COUNT
        &&& self.sp <= STACK_SIZE
        &&& (self.waiting matches Some(x) ==> x < GENERAL_REG_COUNT)
    }

    /// Push a return address: a no-op when the stack is full.
    pub open spec fn push(self, value: u16) -> State {
        if self.sp < STACK_SIZE {
            State {
                stack: self.stack.update(self.sp as int, value),
                sp: (self.sp + 1) as u8,
                ..self
            }
        } else {
            self
        }
    }

    /// Pop a return address: yields 0, and leaves the pointer at 0, when the
    /// stack is empty.
    pub open spec fn pop(self) -> (State, u16) {
        if self.sp == 0 {
            (self, 0u16)
        } else {
            (State { sp: (self.sp - 1) as u8, ..self }, self.stack[self.sp - 1])
        }
    }

    /// Read the two bytes at the program counter (most-significant first) as
    /// one instruction word and advance the program counter by 2.
    pub open spec fn fetch(self) -> (State, u16) {
        (
            State { pc: wrap16(self.pc + 2), ..self },
            (mem_read(self.mem, self.pc as int) * 256 + mem_read(
                self.mem,
                self.pc as int + 1,
            )) as u16,
        )
    }

    /// One 60 Hz timer tick: each timer decrements toward 0 without wrapping;
    /// the boolean reports whether the sound timer was positive before the
    /// decrement.
    pub open spec fn tick(self) -> (State, bool) {
        (
            State {
                dt: if self.dt > 0 { (self.dt - 1) as u8 } else { 0u8 },
                st: if self.st > 0 { (self.st - 1) as u8 } else { 0u8 },
                ..self
            },
            self.st > 0,
        )
    }

    /// Copy a program image into memory at the fixed load offset (bytes that
    /// would fall outside memory are dropped) and reset the program counter
    /// to that offset.
    pub open spec fn load(self, rom: Seq<u8>) -> State {
        State { mem: mem_write_seq(self.mem, ROM_LOAD_ADDR as int, rom), pc: ROM_LOAD_ADDR, ..self }
    }
}

/// Truncate an integer to 8 bits (modulo-256 wrapping).
pub open spec fn wrap8(n: int) -> u8 {
    (n % 0x100) as u8
}

/// Truncate an integer to 16 bits (modulo-65536 wrapping).
pub open spec fn wrap16(n: int) -> u16 {
    (n % 0x10000) as u16
}

/// The byte at `addr`, or 0 when `addr` is outside memory.
pub open spec fn mem_read(mem: Seq<u8>, addr: int) -> u8 {
    if 0 <= addr < mem.len() {
        mem[addr]
    } else {
        0
    }
}

/// Memory after writing `value` at `addr`; unchanged when `addr` is outside
/// memory.
pub open spec fn mem_write(mem: Seq<u8>, addr: int, value: u8) -> Seq<u8> {
    if 0 <= addr < mem.len() {
        mem.update(addr, value)
    } else {
        mem
    }
}

/// Memory after writing `values` at consecutive addresses from `start`, each
/// byte subject to the same bounds policy as a single write.
pub open spec fn mem_write_seq(mem: Seq<u8>, start: int, values: Seq<u8>) -> Seq<u8> {
    Seq::new(
        mem.len(),
        |a: int|
            if start <= a < start + values.len() {
                values[a - start]
            } else {
                mem[a]
            },
    )
}

/// The built-in font table: 16 glyphs, one per hexadecimal digit, 5 bytes
/// each, one byte per 8-pixel row.
pub open spec fn font() -> Seq<u8> {
    seq![
        0xF0u8, 0x90, 0x90, 0x90, 0xF0,  // 0
        0x20, 0x60, 0x20, 0x20, 0x70,  // 1
        0xF0, 0x10, 0xF0, 0x80, 0xF0,  // 2
        0xF0, 0x10, 0xF0, 0x10, 0xF0,  // 3
        0x90, 0x90, 0xF0, 0x10, 0x10,  // 4
        0xF0, 0x80, 0xF0, 0x10, 0xF0,  // 5
        0xF0, 0x80, 0xF0, 0x90, 0xF0,  // 6
        0xF0, 0x10, 0x20, 0x40, 0x40,  // 7
        0xF0, 0x90, 0xF0, 0x90, 0xF0,  // 8
        0xF0, 0x90, 0xF0, 0x10, 0xF0,  // 9
        0xF0, 0x90, 0xF0, 0x90, 0x90,  // A
        0xE0, 0x90, 0xE0, 0x90, 0xE0,  // B
        0xF0, 0x80, 0x80, 0x80, 0xF0,  // C
        0xE0, 0x90, 0x90, 0x90, 0xE0,  // D
        0xF0, 0x80, 0xF0, 0x80, 0xF0,  // E
        0xF0, 0x80, 0xF0, 0x80, 0x80,  // F
    ]
}

/// Memory as it stands after construction: the font table, then zeroes.
pub open spec fn initial_mem() -> Seq<u8> {
    Seq::new(
        RAM_SIZE as nat,
        |a: int|
            if 0 <= a < FONT_BYTES {
                font()[a]
            } else {
                0u8
            },
    )
}

/// The machine as constructed: font in memory, all registers and timers
/// zero, empty stack, program counter at the load offset, not waiting.
pub open spec fn initial_state() -> State {
    State {
        mem: initial_mem(),
        stack: Seq::new(STACK_SIZE as nat, |k: int| 0u16),
        pc: ROM_LOAD_ADDR,
        v: Seq::new(GENERAL_REG_COUNT as nat, |k: int| 0u8),
        i: 0,
        sp: 0,
        dt: 0,
        st: 0,
        waiting: None,
    }
}

/// The smallest index at or after `k` whose key is down, if any.
pub open spec fn first_down_from(input: Seq<bool>, k: int) -> Option<int>
    decreases input.len() - k,
{
    if k < 0 || k >= input.len() {
        None
    } else if input[k] {
        Some(k)
    } else {
        first_down_from(input, k + 1)
    }
}

/// The smallest index whose key is down, if any: the scan order of the
/// wait-for-key state machine.
pub open spec fn first_down(input: Seq<bool>) -> Option<int> {
    first_down_from(input, 0)
}

/// Whether the key named by a register's value is down; a code outside the
/// key vector is never down.
pub open spec fn key_down(input: Seq<bool>, code: u8) -> bool {
    code < input.len() && input[code as int]
}

} // verus!
