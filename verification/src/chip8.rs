//! The interpreter itself: an owned aggregate holding memory, the register
//! file, the call stack, the timers and the wait-for-key marker. Every
//! operation is total: out-of-range memory accesses, stack overflow and
//! stack underflow all degrade to defined defaults rather than failing.

use vstd::prelude::*;

use crate::instruction::Instruction;
use crate::rng::random_byte;
use crate::semantics::{
    clear_fb, draw_collision, draw_hits, exec_alu, exec_draw, exec_misc, sprite_pixel, step_spec,
};
use crate::state::{
    first_down, first_down_from, key_down, mem_read, mem_write, mem_write_seq, font, initial_mem,
    initial_state, State, DISPLAY_HEIGHT, DISPLAY_WIDTH, GENERAL_REG_COUNT, INPUT_COUNT, RAM_SIZE,
    ROM_LOAD_ADDR, STACK_SIZE,
};

verus! {

broadcast use vstd::array::group_array_axioms;

/// A virtual machine instance.
pub struct Chip8 {
    mem: [u8; RAM_SIZE],
    stack: [u16; STACK_SIZE],
    pc: u16,
    v: [u8; GENERAL_REG_COUNT],
    i: u16,
    sp: u8,
    dt: u8,
    st: u8,
    waiting_for_input: Option<usize>,
}

impl View for Chip8 {
    type V = State;

    closed spec fn view(&self) -> State {
        State {
            mem: self.mem@,
            stack: self.stack@,
            pc: self.pc,
            v: self.v@,
            i: self.i,
            sp: self.sp,
            dt: self.dt,
            st: self.st,
            waiting: self.waiting_for_input,
        }
    }
}

impl Chip8 {
    /// A fresh machine: memory zeroed except for the font table, registers
    /// and timers zero, program counter at the load offset.
    pub fn new() -> (c8: Chip8)
        ensures
            c8@ == initial_state(),
            c8@.wf(),
    {
        let mut c8 = Chip8 {
            mem: [0u8; RAM_SIZE],
            stack: [0u16; STACK_SIZE],
            pc: ROM_LOAD_ADDR,
            v: [0u8; GENERAL_REG_COUNT],
            i: 0,
            sp: 0,
            dt: 0,
            st: 0,
            waiting_for_input: None,
        };

        let font_table = font_bytes();
        c8.write_sequence(0, font_table.as_slice());

        proof {
            assert(c8@.mem =~= initial_mem());
            assert(c8@.stack =~= initial_state().stack);
            assert(c8@.v =~= initial_state().v);
            assert(c8@ =~= initial_state());
        }
        c8
    }

    /// Load a program image into memory at the fixed load offset and reset
    /// the program counter to that offset. Bytes that would fall outside
    /// memory are dropped.
    pub fn load(&mut self, rom: &[u8])
        ensures
            final(self)@ == old(self)@.load(rom@),
    {
        self.write_sequence(ROM_LOAD_ADDR, rom);
        self.pc = ROM_LOAD_ADDR;
        proof {
            assert(self@ =~= old(self)@.load(rom@));
        }
    }

    /// One 60 Hz timer tick: both timers decrement toward zero without
    /// wrapping; returns whether the sound timer was positive before the
    /// decrement, i.e. whether the buzzer should sound during this tick.
    pub fn step_timers(&mut self) -> (buzz: bool)
        ensures
            final(self)@ == old(self)@.tick().0,
            buzz == old(self)@.tick().1,
    {
        if self.dt > 0 {
            self.dt = self.dt - 1;
        }

        let buzz = self.st > 0;

        if buzz {
            self.st = self.st - 1;
        }

        buzz
    }

    /// The byte at `addr`, or 0 when `addr` is outside memory.
    pub fn read(&self, addr: u16) -> (r: u8)
        ensures
            r == mem_read(self@.mem, addr as int),
    {
        if (addr as usize) < RAM_SIZE {
            self.mem[addr as usize]
        } else {
            0
        }
    }

    /// Write `value` at `addr`; a write outside memory is dropped.
    pub fn write(&mut self, addr: u16, value: u8)
        ensures
            final(self)@ == (State { mem: mem_write(old(self)@.mem, addr as int, value), ..old(self)@ }),
    {
        if (addr as usize) < RAM_SIZE {
            self.mem[addr as usize] = value;
        }
    }

    /// Write `values` at consecutive addresses from `start_addr`, each byte
    /// subject to the same bounds policy as a single write.
    pub fn write_sequence(&mut self, start_addr: u16, values: &[u8])
        ensures
            final(self)@ == (State {
                mem: mem_write_seq(old(self)@.mem, start_addr as int, values@),
                ..old(self)@
            }),
    {
        self.write_sequence_raw(start_addr as usize, values);
    }

    /// Push a return address onto the call stack; a push onto a full stack
    /// is dropped.
    pub fn push(&mut self, value: u16)
        requires
            old(self)@.wf(),
        ensures
            final(self)@ == old(self)@.push(value),
            final(self)@.wf(),
    {
        if (self.sp as usize) < STACK_SIZE {
            self.stack[self.sp as usize] = value;
            self.sp = self.sp + 1;
        }
    }

    /// Pop a return address off the call stack; a pop from an empty stack
    /// yields 0 and leaves the pointer at 0.
    pub fn pop(&mut self) -> (r: u16)
        requires
            old(self)@.wf(),
        ensures
            final(self)@ == old(self)@.pop().0,
            r == old(self)@.pop().1,
            final(self)@.wf(),
    {
        if self.sp == 0 {
            return 0;
        }
        self.sp = self.sp - 1;
        self.stack[self.sp as usize]
    }

    /// Fetch: read the two bytes at the program counter (most-significant
    /// first) as one instruction word and advance the program counter by 2
    /// (wrapping at the top of the 16-bit address space).
    pub fn next_instruction(&mut self) -> (instr: Instruction)
        ensures
            final(self)@ == old(self)@.fetch().0,
            instr.opcode == old(self)@.fetch().1,
    {
        let hi = self.read(self.pc) as u16;
        let lo = if self.pc < 0xFFFF {
            self.read(self.pc + 1) as u16
        } else {
            0
        };

        proof {
            assert(hi < 256 ==> (hi << 8u16) == hi * 256) by (bit_vector);
        }
        let op = (hi << 8u16) + lo;

        self.pc = self.pc.wrapping_add(2);

        Instruction { opcode: op }
    }

    /// The register-to-register arithmetic/logic group (class 8).
    #[verifier::spinoff_prover]
    #[verifier::rlimit(100)]
    fn exec_alu_op(&mut self, instr: Instruction)
        requires
            old(self)@.wf(),
        ensures
            final(self)@ == exec_alu(old(self)@, instr.opcode),
            final(self)@.wf(),
    {
        let x = instr.x();
        let y = instr.y();
        match instr.n() {
            0x0 => self.v[x] = self.v[y],
            0x1 => self.v[x] = self.v[x] | self.v[y],
            0x2 => self.v[x] = self.v[x] & self.v[y],
            0x3 => self.v[x] = self.v[x] ^ self.v[y],
            0x4 => {
                let sum = self.v[x] as u16 + self.v[y] as u16;
                self.v[15] = if sum > 255 {
                    1
                } else {
                    0
                };
                self.v[x] = (sum % 256) as u8;
            },
            0x5 => {
                self.v[15] = if self.v[x] >= self.v[y] {
                    1
                } else {
                    0
                };
                self.v[x] = self.v[x].wrapping_sub(self.v[y]);
            },
            0x6 => {
                self.v[15] = self.v[x] & 1;
                self.v[x] = self.v[x] / 2;
            },
            0x7 => {
                self.v[15] = if self.v[y] >= self.v[x] {
                    1
                } else {
                    0
                };
                self.v[x] = self.v[y].wrapping_sub(self.v[x]);
            },
            0xE => {
                self.v[15] = (self.v[x] >> 7u8) & 1;
                self.v[x] = self.v[x].wrapping_mul(2);
            },
            _ => {},
        }
    }

    /// The timer/input/memory group (class F).
    fn exec_misc_op(&mut self, instr: Instruction)
        requires
            old(self)@.wf(),
        ensures
            final(self)@ == exec_misc(old(self)@, instr.opcode),
            final(self)@.wf(),
    {
        let x = instr.x();
        match instr.nn() {
            0x07 => self.v[x] = self.dt,
            0x0A => self.waiting_for_input = Some(x),
            0x15 => self.dt = self.v[x],
            0x18 => self.st = self.v[x],
            0x1E => self.i = self.i.wrapping_add(self.v[x] as u16),
            0x29 => self.i = self.v[x] as u16 * 5,
            0x33 => {
                let vx = self.v[x];
                let mut digits: Vec<u8> = Vec::new();
                digits.push(vx / 100);
                digits.push((vx / 10) % 10);
                digits.push(vx % 10);
                let i_reg = self.i;
                self.write_sequence_raw(i_reg as usize, digits.as_slice());
                proof {
                    assert(digits@ =~= seq![vx / 100, (vx / 10) % 10, vx % 10]);
                }
            },
            0x55 => {
                let ghost mem0 = self.mem@;
                let i_base = self.i as usize;
                let mut k: usize = 0;
                while k < x + 1
                    invariant
                        x < GENERAL_REG_COUNT,
                        k <= x + 1,
                        i_base == old(self)@.i,
                        self@ == (State { mem: self.mem@, ..old(self)@ }),
                        forall|a: int|
                            0 <= a < RAM_SIZE ==> self.mem@[a] == (if i_base <= a < i_base + k {
                                old(self)@.v[a - i_base]
                            } else {
                                mem0[a]
                            }),
                    decreases x + 1 - k,
                {
                    let a = i_base + k;
                    if a < RAM_SIZE {
                        self.mem[a] = self.v[k];
                    }
                    k += 1;
                }
                proof {
                    assert(self.mem@ =~= mem_write_seq(
                        mem0,
                        i_base as int,
                        old(self)@.v.take(x + 1),
                    ));
                }
            },
            0x65 => {
                let ghost v0 = self.v@;
                let i_base = self.i as usize;
                let mut k: usize = 0;
                while k < x + 1
                    invariant
                        x < GENERAL_REG_COUNT,
                        k <= x + 1,
                        i_base == old(self)@.i,
                        self@ == (State { v: self.v@, ..old(self)@ }),
                        forall|j: int|
                            0 <= j < GENERAL_REG_COUNT ==> self.v@[j] == (if 0 <= j < k {
                                mem_read(old(self)@.mem, old(self)@.i + j)
                            } else {
                                v0[j]
                            }),
                    decreases x + 1 - k,
                {
                    let a = i_base + k;
                    let val = if a < RAM_SIZE {
                        self.mem[a]
                    } else {
                        0
                    };
                    self.v[k] = val;
                    k += 1;
                }
                proof {
                    assert(self.v@ =~= Seq::new(
                        GENERAL_REG_COUNT as nat,
                        |j: int|
                            if 0 <= j <= x {
                                mem_read(old(self)@.mem, old(self)@.i + j)
                            } else {
                                old(self)@.v[j]
                            },
                    ));
                }
            },
            _ => {},
        }
    }

    /// The display instruction: XOR-blit `n` sprite rows from the index
    /// register's address at an anchor of (register X mod width, register Y
    /// mod height), clipped at the right and bottom edges, reporting
    /// collision in the flag register.
    fn exec_draw_op(
        &mut self,
        instr: Instruction,
        output: &mut [[bool; DISPLAY_HEIGHT]; DISPLAY_WIDTH],
    )
        requires
            old(self)@.wf(),
        ensures
            final(self)@ == exec_draw(old(self)@, instr.opcode, old(output).deep_view()).0,
            final(output).deep_view() == exec_draw(old(self)@, instr.opcode, old(output).deep_view()).1,
            final(self)@.wf(),
    {
        let x = instr.x();
        let y = instr.y();
        let n = instr.n() as usize;
        let vx = (self.v[x] as usize) % DISPLAY_WIDTH;
        let vy = (self.v[y] as usize) % DISPLAY_HEIGHT;

        let ghost fb0 = output.deep_view();
        let ghost memg = self.mem@;
        let ghost ig = self.i;
        let ghost ng = n as int;

        let cols: usize = if 8 < DISPLAY_WIDTH - vx {
            8
        } else {
            DISPLAY_WIDTH - vx
        };
        let rows: usize = if n < DISPLAY_HEIGHT - vy {
            n
        } else {
            DISPLAY_HEIGHT - vy
        };

        let mut collided = false;
        let mut sx: usize = 0;
        while sx < cols
            invariant
                self@ == old(self)@,
                memg == self.mem@,
                ig == self.i,
                vx < DISPLAY_WIDTH,
                vy < DISPLAY_HEIGHT,
                ng == n,
                n < 16,
                sx <= cols,
                cols <= 8,
                vx + cols <= DISPLAY_WIDTH,
                cols == 8 || cols == DISPLAY_WIDTH - vx,
                rows <= n,
                vy + rows <= DISPLAY_HEIGHT,
                rows == n || rows == DISPLAY_HEIGHT - vy,
                fb0.len() == DISPLAY_WIDTH,
                forall|px: int| 0 <= px < DISPLAY_WIDTH ==> (#[trigger] fb0[px]).len()
                    == DISPLAY_HEIGHT,
                forall|px: int, py: int|
                    0 <= px < DISPLAY_WIDTH && 0 <= py < DISPLAY_HEIGHT
                        ==> #[trigger] output.deep_view()[px][py] == (if hits_below(
                        memg,
                        ig,
                        vx as int,
                        vy as int,
                        ng,
                        px,
                        py,
                        sx as int,
                        0,
                    ) {
                        !fb0[px][py]
                    } else {
                        fb0[px][py]
                    }),
                collided == exists|px: int, py: int|
                    0 <= px < DISPLAY_WIDTH && 0 <= py < DISPLAY_HEIGHT && #[trigger] hits_below(
                        memg,
                        ig,
                        vx as int,
                        vy as int,
                        ng,
                        px,
                        py,
                        sx as int,
                        0,
                    ) && fb0[px][py],
            decreases cols - sx,
        {
            let px = vx + sx;
            let mut sy: usize = 0;
            while sy < rows
                invariant
                    self@ == old(self)@,
                    memg == self.mem@,
                    ig == self.i,
                    vx < DISPLAY_WIDTH,
                    vy < DISPLAY_HEIGHT,
                    ng == n,
                    n < 16,
                    sx < cols,
                    px == vx + sx,
                    sy <= rows,
                    cols <= 8,
                    vx + cols <= DISPLAY_WIDTH,
                    rows <= n,
                    vy + rows <= DISPLAY_HEIGHT,
                    rows == n || rows == DISPLAY_HEIGHT - vy,
                    fb0.len() == DISPLAY_WIDTH,
                    forall|qx: int| 0 <= qx < DISPLAY_WIDTH ==> (#[trigger] fb0[qx]).len()
                        == DISPLAY_HEIGHT,
                    forall|qx: int, qy: int|
                        0 <= qx < DISPLAY_WIDTH && 0 <= qy < DISPLAY_HEIGHT
                            ==> #[trigger] output.deep_view()[qx][qy] == (if hits_below(
                            memg,
                            ig,
                            vx as int,
                            vy as int,
                            ng,
                            qx,
                            qy,
                            sx as int,
                            sy as int,
                        ) {
                            !fb0[qx][qy]
                        } else {
                            fb0[qx][qy]
                        }),
                    collided == exists|qx: int, qy: int|
                        0 <= qx < DISPLAY_WIDTH && 0 <= qy < DISPLAY_HEIGHT
                            && #[trigger] hits_below(
                            memg,
                            ig,
                            vx as int,
                            vy as int,
                            ng,
                            qx,
                            qy,
                            sx as int,
                            sy as int,
                        ) && fb0[qx][qy],
                decreases rows - sy,
            {
                let py = vy + sy;
                let addr = self.i as usize + sy;
                let row = if addr < RAM_SIZE {
                    self.mem[addr]
                } else {
                    0
                };
                let shift: u8 = (7 - sx) as u8;
                let bit = (row >> shift) & 1;
                proof {
                    assert((row >> shift) & 1 == 0 || (row >> shift) & 1 == 1) by (bit_vector);
                    assert(row == mem_read(memg, ig + sy));
                    assert((bit == 1) == sprite_pixel(memg, ig, sx as int, sy as int));
                    assert(!hits_below(
                        memg,
                        ig,
                        vx as int,
                        vy as int,
                        ng,
                        px as int,
                        py as int,
                        sx as int,
                        sy as int,
                    ));
                }

                let ghost pre = output.deep_view();
                if bit == 1 {
                    if output[px][py] {
                        collided = true;
                    }
                    output[px][py] = !output[px][py];
                    proof {
                        assert forall|qx: int, qy: int|
                            0 <= qx < DISPLAY_WIDTH && 0 <= qy < DISPLAY_HEIGHT implies #[trigger] output.deep_view()[qx][qy]
                            == (if qx == px && qy == py {
                            !pre[qx][qy]
                        } else {
                            pre[qx][qy]
                        }) by {}
                        assert(pre[px as int][py as int] == fb0[px as int][py as int]);
                    }
                }
                proof {
                    assert forall|qx: int, qy: int|
                        0 <= qx < DISPLAY_WIDTH && 0 <= qy < DISPLAY_HEIGHT implies (hits_below(
                        memg,
                        ig,
                        vx as int,
                        vy as int,
                        ng,
                        qx,
                        qy,
                        sx as int,
                        sy + 1,
                    ) == (hits_below(
                        memg,
                        ig,
                        vx as int,
                        vy as int,
                        ng,
                        qx,
                        qy,
                        sx as int,
                        sy as int,
                    ) || (qx == px && qy == py && sprite_pixel(memg, ig, sx as int, sy as int)))) by {}
                    lemma_collision_row_step(
                        memg,
                        ig,
                        vx as int,
                        vy as int,
                        ng,
                        fb0,
                        sx as int,
                        sy as int,
                    );
                }
                sy += 1;
            }
            proof {
                assert forall|qx: int, qy: int|
                    0 <= qx < DISPLAY_WIDTH && 0 <= qy < DISPLAY_HEIGHT implies (hits_below(
                    memg,
                    ig,
                    vx as int,
                    vy as int,
                    ng,
                    qx,
                    qy,
                    sx + 1,
                    0,
                ) == hits_below(
                    memg,
                    ig,
                    vx as int,
                    vy as int,
                    ng,
                    qx,
                    qy,
                    sx as int,
                    rows as int,
                )) by {}
                lemma_collision_col_step(
                    memg,
                    ig,
                    vx as int,
                    vy as int,
                    ng,
                    fb0,
                    sx as int,
                    rows as int,
                );
            }
            sx += 1;
        }

        self.v[15] = if collided {
            1
        } else {
            0
        };

        proof {
            let dst = exec_draw(old(self)@, instr.opcode, fb0);
            assert forall|qx: int, qy: int|
                0 <= qx < DISPLAY_WIDTH && 0 <= qy < DISPLAY_HEIGHT implies (hits_below(
                memg,
                ig,
                vx as int,
                vy as int,
                ng,
                qx,
                qy,
                cols as int,
                0,
            ) == draw_hits(memg, ig, vx as int, vy as int, ng, qx, qy)) by {}
            lemma_collision_final(memg, ig, vx as int, vy as int, ng, fb0, cols as int);
            assert(collided == draw_collision(memg, ig, vx as int, vy as int, ng, fb0));
            assert forall|qx: int| 0 <= qx < DISPLAY_WIDTH implies output.deep_view()[qx] =~= dst.1[qx] by {}
            assert(output.deep_view() =~~= dst.1);
            assert(self@ =~~= dst.0);
        }
    }

    /// Write `values` at consecutive addresses from `start`, the same bounds
    /// policy as a single write per byte; `start` is not limited to the
    /// 16-bit address space.
    fn write_sequence_raw(&mut self, start: usize, values: &[u8])
        requires
            start < 0x20000,
        ensures
            final(self)@ == (State {
                mem: mem_write_seq(old(self)@.mem, start as int, values@),
                ..old(self)@
            }),
    {
        let ghost mem0 = self.mem@;
        let mut offset: usize = 0;
        while offset < values.len()
            invariant
                start < 0x20000,
                offset <= values@.len(),
                self@ == (State { mem: self.mem@, ..old(self)@ }),
                forall|a: int|
                    0 <= a < RAM_SIZE ==> self.mem@[a] == (if start <= a < start + offset {
                        values@[a - start]
                    } else {
                        mem0[a]
                    }),
            decreases values@.len() - offset,
        {
            if offset < RAM_SIZE {
                let a = start + offset;
                if a < RAM_SIZE {
                    self.mem[a] = values[offset];
                }
            }
            offset += 1;
        }
        proof {
            assert(self.mem@ =~= mem_write_seq(mem0, start as int, values@));
        }
    }

    /// Run one machine cycle against the caller's key-state vector and
    /// framebuffer.
    ///
    /// The one instruction whose outcome depends on the random generator is
    /// the random-masked load; everything else is a pure function of the
    /// machine state and the inputs, as [`step_spec`] states, so the
    /// postcondition holds for some byte `r` — and [`Chip8::step_with_random`]
    /// pins the transition exactly for a byte of the caller's choosing.
    pub fn step(
        &mut self,
        input: &[bool; INPUT_COUNT],
        output: &mut [[bool; DISPLAY_HEIGHT]; DISPLAY_WIDTH],
    )
        requires
            old(self)@.wf(),
        ensures
            final(self)@.wf(),
            exists|r: u8|
                #![trigger step_spec(old(self)@, input@, old(output).deep_view(), r)]
                {
                    &&& final(self)@ == step_spec(old(self)@, input@, old(output).deep_view(), r).0
                    &&& final(output).deep_view() == step_spec(
                        old(self)@,
                        input@,
                        old(output).deep_view(),
                        r,
                    ).1
                },
    {
        let r = random_byte();
        self.step_with_random(input, output, r);
    }

    /// Run one machine cycle, with `r` standing in for the byte the random
    /// generator would produce: the fully deterministic transition.
    pub fn step_with_random(
        &mut self,
        input: &[bool; INPUT_COUNT],
        output: &mut [[bool; DISPLAY_HEIGHT]; DISPLAY_WIDTH],
        r: u8,
    )
        requires
            old(self)@.wf(),
        ensures
            final(self)@ == step_spec(old(self)@, input@, old(output).deep_view(), r).0,
            final(output).deep_view() == step_spec(old(self)@, input@, old(output).deep_view(), r).1,
            final(self)@.wf(),
    {
        if let Some(x) = self.waiting_for_input {
            match find_first_down(input) {
                Some(k) => {
                    self.v[x] = k as u8;
                    self.waiting_for_input = None;
                },
                None => {},
            }
            return;
        }

        let instr = self.next_instruction();

        match instr.c() {
            0x0 => {
                if instr.opcode == 0x00E0 {
                    clear_display(output);
                } else if instr.opcode == 0x00EE {
                    let addr = self.pop();
                    self.pc = addr;
                }
            },
            0x1 => self.pc = instr.nnn(),
            0x2 => {
                let pc = self.pc;
                self.push(pc);
                self.pc = instr.nnn();
            },
            0x3 => {
                if self.v[instr.x()] == instr.nn() {
                    self.pc = self.pc.wrapping_add(2);
                }
            },
            0x4 => {
                if self.v[instr.x()] != instr.nn() {
                    self.pc = self.pc.wrapping_add(2);
                }
            },
            0x5 => {
                if instr.n() == 0 && self.v[instr.x()] == self.v[instr.y()] {
                    self.pc = self.pc.wrapping_add(2);
                }
            },
            0x6 => self.v[instr.x()] = instr.nn(),
            0x7 => self.v[instr.x()] = self.v[instr.x()].wrapping_add(instr.nn()),
            0x8 => self.exec_alu_op(instr),
            0x9 => {
                if instr.n() == 0 && self.v[instr.x()] != self.v[instr.y()] {
                    self.pc = self.pc.wrapping_add(2);
                }
            },
            0xA => self.i = instr.nnn(),
            0xB => self.pc = self.v[0] as u16 + instr.nnn(),
            0xC => self.v[instr.x()] = r & instr.nn(),
            0xD => self.exec_draw_op(instr, output),
            0xE => {
                if instr.nn() == 0x9E {
                    if key_is_down(input, self.v[instr.x()]) {
                        self.pc = self.pc.wrapping_add(2);
                    }
                } else if instr.nn() == 0xA1 {
                    if !key_is_down(input, self.v[instr.x()]) {
                        self.pc = self.pc.wrapping_add(2);
                    }
                }
            },
            0xF => self.exec_misc_op(instr),
            _ => {},
        }
    }

    /// The program counter.
    pub fn program_counter(&self) -> (r: u16)
        ensures
            r == self@.pc,
    {
        self.pc
    }

    /// The index register.
    pub fn index_register(&self) -> (r: u16)
        ensures
            r == self@.i,
    {
        self.i
    }

    /// General-purpose register `x`.
    pub fn register(&self, x: usize) -> (r: u8)
        requires
            x < GENERAL_REG_COUNT,
        ensures
            r == self@.v[x as int],
    {
        self.v[x]
    }

    /// The delay timer.
    pub fn delay_timer(&self) -> (r: u8)
        ensures
            r == self@.dt,
    {
        self.dt
    }

    /// The sound timer.
    pub fn sound_timer(&self) -> (r: u8)
        ensures
            r == self@.st,
    {
        self.st
    }

    /// The stack pointer.
    pub fn stack_pointer(&self) -> (r: u8)
        ensures
            r == self@.sp,
    {
        self.sp
    }

    /// Whether the machine is suspended waiting for a key.
    pub fn is_waiting(&self) -> (r: bool)
        ensures
            r == (self@.waiting is Some),
    {
        self.waiting_for_input.is_some()
    }

    /// Whether the machine state is well formed. Construction establishes
    /// this and every operation preserves it; a host that holds a machine
    /// obtained from [`Chip8::new`] need never re-check it.
    pub fn is_well_formed(&self) -> (r: bool)
        ensures
            r == self@.wf(),
    {
        (self.sp as usize) <= STACK_SIZE && match self.waiting_for_input {
            Some(x) => x < GENERAL_REG_COUNT,
            None => true,
        }
    }
}

/// Extending the processed region of a blit by one cell adds exactly that
/// cell (when its sprite pixel is set) to the collision candidates.
proof fn lemma_collision_row_step(
    mem: Seq<u8>,
    i: u16,
    vx: int,
    vy: int,
    n: int,
    fb0: Seq<Seq<bool>>,
    sx: int,
    sy: int,
)
    requires
        fb0.len() == DISPLAY_WIDTH,
        forall|qx: int| 0 <= qx < DISPLAY_WIDTH ==> (#[trigger] fb0[qx]).len() == DISPLAY_HEIGHT,
        0 <= sx < 8,
        0 <= sy < n,
        0 <= vx,
        0 <= vy,
        vx + sx < DISPLAY_WIDTH,
        vy + sy < DISPLAY_HEIGHT,
    ensures
        (exists|qx: int, qy: int|
            0 <= qx < DISPLAY_WIDTH && 0 <= qy < DISPLAY_HEIGHT && #[trigger] hits_below(
                mem,
                i,
                vx,
                vy,
                n,
                qx,
                qy,
                sx,
                sy + 1,
            ) && fb0[qx][qy]) == ((exists|qx: int, qy: int|
            0 <= qx < DISPLAY_WIDTH && 0 <= qy < DISPLAY_HEIGHT && #[trigger] hits_below(
                mem,
                i,
                vx,
                vy,
                n,
                qx,
                qy,
                sx,
                sy,
            ) && fb0[qx][qy]) || (sprite_pixel(mem, i, sx, sy) && fb0[vx + sx][vy + sy])),
{
    let a = exists|qx: int, qy: int|
        0 <= qx < DISPLAY_WIDTH && 0 <= qy < DISPLAY_HEIGHT && #[trigger] hits_below(
            mem,
            i,
            vx,
            vy,
            n,
            qx,
            qy,
            sx,
            sy + 1,
        ) && fb0[qx][qy];
    let b = exists|qx: int, qy: int|
        0 <= qx < DISPLAY_WIDTH && 0 <= qy < DISPLAY_HEIGHT && #[trigger] hits_below(
            mem,
            i,
            vx,
            vy,
            n,
            qx,
            qy,
            sx,
            sy,
        ) && fb0[qx][qy];
    let c = sprite_pixel(mem, i, sx, sy) && fb0[vx + sx][vy + sy];
    if a {
        let (qx, qy) = choose|qx: int, qy: int|
            0 <= qx < DISPLAY_WIDTH && 0 <= qy < DISPLAY_HEIGHT && #[trigger] hits_below(
                mem,
                i,
                vx,
                vy,
                n,
                qx,
                qy,
                sx,
                sy + 1,
            ) && fb0[qx][qy];
        if hits_below(mem, i, vx, vy, n, qx, qy, sx, sy) {
            assert(b);
        } else {
            assert(qx == vx + sx && qy == vy + sy);
            assert(c);
        }
    }
    if b {
        let (qx, qy) = choose|qx: int, qy: int|
            0 <= qx < DISPLAY_WIDTH && 0 <= qy < DISPLAY_HEIGHT && #[trigger] hits_below(
                mem,
                i,
                vx,
                vy,
                n,
                qx,
                qy,
                sx,
                sy,
            ) && fb0[qx][qy];
        assert(hits_below(mem, i, vx, vy, n, qx, qy, sx, sy + 1));
        assert(a);
    }
    if c {
        assert(hits_below(mem, i, vx, vy, n, vx + sx, vy + sy, sx, sy + 1));
        assert(a);
    }
}

/// A fully processed column extends the processed region to the next column
/// boundary: rows of the sprite that lie below the bottom edge land on no
/// cell.
proof fn lemma_collision_col_step(
    mem: Seq<u8>,
    i: u16,
    vx: int,
    vy: int,
    n: int,
    fb0: Seq<Seq<bool>>,
    sx: int,
    rows: int,
)
    requires
        fb0.len() == DISPLAY_WIDTH,
        forall|qx: int| 0 <= qx < DISPLAY_WIDTH ==> (#[trigger] fb0[qx]).len() == DISPLAY_HEIGHT,
        0 <= sx < 8,
        0 <= vx,
        0 <= vy,
        0 <= rows <= n,
        rows == n || rows == DISPLAY_HEIGHT - vy,
    ensures
        (exists|qx: int, qy: int|
            0 <= qx < DISPLAY_WIDTH && 0 <= qy < DISPLAY_HEIGHT && #[trigger] hits_below(
                mem,
                i,
                vx,
                vy,
                n,
                qx,
                qy,
                sx,
                rows,
            ) && fb0[qx][qy]) == (exists|qx: int, qy: int|
            0 <= qx < DISPLAY_WIDTH && 0 <= qy < DISPLAY_HEIGHT && #[trigger] hits_below(
                mem,
                i,
                vx,
                vy,
                n,
                qx,
                qy,
                sx + 1,
                0,
            ) && fb0[qx][qy]),
{
    assert forall|qx: int, qy: int|
        0 <= qx < DISPLAY_WIDTH && 0 <= qy < DISPLAY_HEIGHT implies (#[trigger] hits_below(
        mem,
        i,
        vx,
        vy,
        n,
        qx,
        qy,
        sx,
        rows,
    ) == hits_below(mem, i, vx, vy, n, qx, qy, sx + 1, 0)) by {}
    let a = exists|qx: int, qy: int|
        0 <= qx < DISPLAY_WIDTH && 0 <= qy < DISPLAY_HEIGHT && #[trigger] hits_below(
            mem,
            i,
            vx,
            vy,
            n,
            qx,
            qy,
            sx,
            rows,
        ) && fb0[qx][qy];
    let b = exists|qx: int, qy: int|
        0 <= qx < DISPLAY_WIDTH && 0 <= qy < DISPLAY_HEIGHT && #[trigger] hits_below(
            mem,
            i,
            vx,
            vy,
            n,
            qx,
            qy,
            sx + 1,
            0,
        ) && fb0[qx][qy];
    if a {
        let (qx, qy) = choose|qx: int, qy: int|
            0 <= qx < DISPLAY_WIDTH && 0 <= qy < DISPLAY_HEIGHT && #[trigger] hits_below(
                mem,
                i,
                vx,
                vy,
                n,
                qx,
                qy,
                sx,
                rows,
            ) && fb0[qx][qy];
        assert(hits_below(mem, i, vx, vy, n, qx, qy, sx + 1, 0));
        assert(b);
    }
    if b {
        let (qx, qy) = choose|qx: int, qy: int|
            0 <= qx < DISPLAY_WIDTH && 0 <= qy < DISPLAY_HEIGHT && #[trigger] hits_below(
                mem,
                i,
                vx,
                vy,
                n,
                qx,
                qy,
                sx + 1,
                0,
            ) && fb0[qx][qy];
        assert(hits_below(mem, i, vx, vy, n, qx, qy, sx, rows));
        assert(a);
    }
}

/// Once every column that fits on the display has been processed, the
/// processed-region collision candidates are exactly the blit's collisions.
proof fn lemma_collision_final(
    mem: Seq<u8>,
    i: u16,
    vx: int,
    vy: int,
    n: int,
    fb0: Seq<Seq<bool>>,
    cols: int,
)
    requires
        fb0.len() == DISPLAY_WIDTH,
        forall|qx: int| 0 <= qx < DISPLAY_WIDTH ==> (#[trigger] fb0[qx]).len() == DISPLAY_HEIGHT,
        0 <= vx < DISPLAY_WIDTH,
        0 <= cols <= 8,
        vx + cols <= DISPLAY_WIDTH,
        cols == 8 || cols == DISPLAY_WIDTH - vx,
    ensures
        (exists|qx: int, qy: int|
            0 <= qx < DISPLAY_WIDTH && 0 <= qy < DISPLAY_HEIGHT && #[trigger] hits_below(
                mem,
                i,
                vx,
                vy,
                n,
                qx,
                qy,
                cols,
                0,
            ) && fb0[qx][qy]) == draw_collision(mem, i, vx, vy, n, fb0),
{
    let a = exists|qx: int, qy: int|
        0 <= qx < DISPLAY_WIDTH && 0 <= qy < DISPLAY_HEIGHT && #[trigger] hits_below(
            mem,
            i,
            vx,
            vy,
            n,
            qx,
            qy,
            cols,
            0,
        ) && fb0[qx][qy];
    if a {
        let (qx, qy) = choose|qx: int, qy: int|
            0 <= qx < DISPLAY_WIDTH && 0 <= qy < DISPLAY_HEIGHT && #[trigger] hits_below(
                mem,
                i,
                vx,
                vy,
                n,
                qx,
                qy,
                cols,
                0,
            ) && fb0[qx][qy];
        assert(0 <= qx < fb0.len() && 0 <= qy < fb0[qx].len() && draw_hits(mem, i, vx, vy, n, qx, qy)
            && fb0[qx][qy]);
        assert(draw_collision(mem, i, vx, vy, n, fb0));
    }
    if draw_collision(mem, i, vx, vy, n, fb0) {
        let (qx, qy) = choose|qx: int, qy: int|
            0 <= qx < fb0.len() && 0 <= qy < fb0[qx].len() && #[trigger] draw_hits(
                mem,
                i,
                vx,
                vy,
                n,
                qx,
                qy,
            ) && fb0[qx][qy];
        assert(hits_below(mem, i, vx, vy, n, qx, qy, cols, 0));
        assert(a);
    }
}

/// The cells already toggled partway through a blit: every sprite hit in a
/// column left of `cx`, and in column `cx` itself every hit in a row above
/// `cy`.
spec fn hits_below(
    mem: Seq<u8>,
    i: u16,
    vx: int,
    vy: int,
    n: int,
    px: int,
    py: int,
    cx: int,
    cy: int,
) -> bool {
    draw_hits(mem, i, vx, vy, n, px, py) && (px - vx < cx || (px - vx == cx && py - vy < cy))
}

/// The lowest key index reported down, if any: the scan order of the
/// wait-for-key state machine.
fn find_first_down(input: &[bool; INPUT_COUNT]) -> (r: Option<usize>)
    ensures
        first_down(input@) == (match r {
            Some(k) => Some(k as int),
            None => None,
        }),
        r matches Some(k) ==> k < INPUT_COUNT,
{
    let mut k: usize = 0;
    while k < INPUT_COUNT
        invariant
            k <= INPUT_COUNT,
            first_down(input@) == first_down_from(input@, k as int),
            forall|j: int| 0 <= j < k ==> !input@[j],
        decreases INPUT_COUNT - k,
    {
        if input[k] {
            return Some(k);
        }
        k += 1;
    }
    None
}

/// Whether the key named by `code` is down; a code outside the key vector is
/// never down.
fn key_is_down(input: &[bool; INPUT_COUNT], code: u8) -> (r: bool)
    ensures
        r == key_down(input@, code),
{
    (code as usize) < INPUT_COUNT && input[code as usize]
}

/// Reset every framebuffer cell to off.
fn clear_display(output: &mut [[bool; DISPLAY_HEIGHT]; DISPLAY_WIDTH])
    ensures
        final(output).deep_view() == clear_fb(),
{
    let mut x: usize = 0;
    while x < DISPLAY_WIDTH
        invariant
            x <= DISPLAY_WIDTH,
            forall|px: int, py: int|
                0 <= px < x && 0 <= py < DISPLAY_HEIGHT ==> #[trigger] output.deep_view()[px][py]
                    == false,
        decreases DISPLAY_WIDTH - x,
    {
        let ghost pre = output.deep_view();
        output[x] = [false; DISPLAY_HEIGHT];
        proof {
            assert forall|px: int, py: int|
                0 <= px < DISPLAY_WIDTH && 0 <= py
                    < DISPLAY_HEIGHT implies #[trigger] output.deep_view()[px][py] == (if px == x {
                false
            } else {
                pre[px][py]
            }) by {}
        }
        x += 1;
    }
    proof {
        assert forall|px: int| 0 <= px < DISPLAY_WIDTH implies output.deep_view()[px] =~= clear_fb(
        )[px] by {}
        assert(output.deep_view() =~~= clear_fb());
    }
}

/// The font table as bytes, glyph by glyph.
fn font_bytes() -> (r: Vec<u8>)
    ensures
        r@ == font(),
{
    let mut r: Vec<u8> = Vec::new();
    r.push(0xF0);
    r.push(0x90);
    r.push(0x90);
    r.push(0x90);
    r.push(0xF0);
    r.push(0x20);
    r.push(0x60);
    r.push(0x20);
    r.push(0x20);
    r.push(0x70);
    r.push(0xF0);
    r.push(0x10);
    r.push(0xF0);
    r.push(0x80);
    r.push(0xF0);
    r.push(0xF0);
    r.push(0x10);
    r.push(0xF0);
    r.push(0x10);
    r.push(0xF0);
    r.push(0x90);
    r.push(0x90);
    r.push(0xF0);
    r.push(0x10);
    r.push(0x10);
    r.push(0xF0);
    r.push(0x80);
    r.push(0xF0);
    r.push(0x10);
    r.push(0xF0);
    r.push(0xF0);
    r.push(0x80);
    r.push(0xF0);
    r.push(0x90);
    r.push(0xF0);
    r.push(0xF0);
    r.push(0x10);
    r.push(0x20);
    r.push(0x40);
    r.push(0x40);
    r.push(0xF0);
    r.push(0x90);
    r.push(0xF0);
    r.push(0x90);
    r.push(0xF0);
    r.push(0xF0);
    r.push(0x90);
    r.push(0xF0);
    r.push(0x10);
    r.push(0xF0);
    r.push(0xF0);
    r.push(0x90);
    r.push(0xF0);
    r.push(0x90);
    r.push(0x90);
    r.push(0xE0);
    r.push(0x90);
    r.push(0xE0);
    r.push(0x90);
    r.push(0xE0);
    r.push(0xF0);
    r.push(0x80);
    r.push(0x80);
    r.push(0x80);
    r.push(0xF0);
    r.push(0xE0);
    r.push(0x90);
    r.push(0x90);
    r.push(0x90);
    r.push(0xE0);
    r.push(0xF0);
    r.push(0x80);
    r.push(0xF0);
    r.push(0x80);
    r.push(0xF0);
    r.push(0xF0);
    r.push(0x80);
    r.push(0xF0);
    r.push(0x80);
    r.push(0x80);
    proof {
        assert(r@ =~= font());
    }
    r
}

} // verus!
