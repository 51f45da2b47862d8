//! Laws of the machine: properties that relate several operations, stated
//! over the mathematical model and proved once and for all.

use vstd::prelude::*;

use crate::instruction::spec_c;
use crate::semantics::{draw_collision, draw_fb, draw_hits, step_spec};
use crate::state::{
    first_down, first_down_from, mem_read, mem_write, State, DISPLAY_HEIGHT, DISPLAY_WIDTH,
    INPUT_COUNT, RAM_SIZE, ROM_LOAD_ADDR, STACK_SIZE,
};

verus! {

/// An address at or beyond the end of memory reads as 0, and a write to it
/// changes nothing.
pub proof fn lemma_out_of_range_access(mem: Seq<u8>, addr: int, value: u8)
    requires
        mem.len() == RAM_SIZE,
        addr >= RAM_SIZE,
    ensures
        mem_read(mem, addr) == 0,
        mem_write(mem, addr, value) == mem,
{
}

/// Loading a program image leaves the program counter at the load offset,
/// with the image's first byte readable there.
pub proof fn lemma_load_pc_and_first_byte(s: State, rom: Seq<u8>)
    requires
        s.wf(),
        rom.len() >= 1,
    ensures
        s.load(rom).pc == ROM_LOAD_ADDR,
        mem_read(s.load(rom).mem, ROM_LOAD_ADDR as int) == rom[0],
        s.load(rom).wf(),
{
}

/// The machine state after pushing each value of `vals` in turn.
pub open spec fn push_all(s: State, vals: Seq<u16>) -> State
    decreases vals.len(),
{
    if vals.len() == 0 {
        s
    } else {
        push_all(s.push(vals[0]), vals.drop_first())
    }
}

/// The machine state after `n` pops, together with the popped values in
/// order.
pub open spec fn pop_all(s: State, n: nat) -> (State, Seq<u16>)
    decreases n,
{
    if n == 0 {
        (s, Seq::empty())
    } else {
        let popped = s.pop();
        let rest = pop_all(popped.0, (n - 1) as nat);
        (rest.0, seq![popped.1] + rest.1)
    }
}

/// Pushing while there is room appends to the live prefix of the stack and
/// moves the pointer; nothing else changes.
proof fn lemma_push_all_effect(s: State, vals: Seq<u16>)
    requires
        s.wf(),
        s.sp + vals.len() <= STACK_SIZE,
    ensures
        push_all(s, vals).wf(),
        push_all(s, vals).sp == s.sp + vals.len(),
        forall|j: int| 0 <= j < s.sp ==> push_all(s, vals).stack[j] == s.stack[j],
        forall|j: int| 0 <= j < vals.len() ==> push_all(s, vals).stack[s.sp + j] == vals[j],
        push_all(s, vals) == (State {
            stack: push_all(s, vals).stack,
            sp: push_all(s, vals).sp,
            ..s
        }),
    decreases vals.len(),
{
    if vals.len() == 0 {
    } else {
        let s1 = s.push(vals[0]);
        lemma_push_all_effect(s1, vals.drop_first());
        assert(push_all(s, vals) == push_all(s1, vals.drop_first()));
        assert(s1.stack == s.stack.update(s.sp as int, vals[0]));
        assert forall|j: int| 0 <= j < s.sp implies push_all(s, vals).stack[j] == s.stack[j] by {
            assert(push_all(s1, vals.drop_first()).stack[j] == s1.stack[j]);
        }
        assert forall|j: int| 0 <= j < vals.len() implies push_all(s, vals).stack[s.sp + j]
            == vals[j] by {
            if j == 0 {
                assert(push_all(s1, vals.drop_first()).stack[s1.sp - 1] == s1.stack[s1.sp - 1]);
            } else {
                assert(push_all(s1, vals.drop_first()).stack[s1.sp + (j - 1)]
                    == vals.drop_first()[j - 1]);
                assert(vals.drop_first()[j - 1] == vals[j]);
            }
        }
    }
}

/// Popping the whole live prefix yields it in reverse order, leaves the
/// pointer at 0 and the stored values in place; nothing else changes.
proof fn lemma_pop_all_effect(s: State, m: nat)
    requires
        s.wf(),
        m == s.sp,
    ensures
        pop_all(s, m).0 == (State { sp: 0, ..s }),
        pop_all(s, m).1 == s.stack.subrange(0, m as int).reverse(),
    decreases m,
{
    if m == 0 {
        assert(s.stack.subrange(0, 0).reverse() =~= Seq::<u16>::empty());
    } else {
        let popped = s.pop();
        lemma_pop_all_effect(popped.0, (m - 1) as nat);
        let whole = s.stack.subrange(0, m as int);
        let rest = popped.0.stack.subrange(0, m as int - 1);
        assert(rest =~= s.stack.subrange(0, m as int - 1));
        assert(pop_all(s, m).1 =~= whole.reverse()) by {
            assert(whole.reverse().len() == m);
            assert forall|k: int| 0 <= k < m implies pop_all(s, m).1[k] == whole.reverse()[k] by {
                assert(whole.reverse()[k] == whole[m - 1 - k]);
                if k == 0 {
                    assert(pop_all(s, m).1[0] == s.stack[m - 1]);
                } else {
                    assert(pop_all(s, m).1[k] == rest.reverse()[k - 1]);
                    assert(rest.reverse()[k - 1] == rest[m - 1 - k]);
                }
            }
        }
    }
}

/// The call stack is a bounded LIFO: filling the empty stack with
/// `STACK_SIZE` values and then draining it returns them in reverse order
/// and restores the pointer to 0; one push more than the capacity is
/// dropped; a pop of the empty stack yields 0 and does not move the pointer.
pub proof fn lemma_stack_lifo(s: State, vals: Seq<u16>, extra: u16)
    requires
        s.wf(),
        s.sp == 0,
        vals.len() == STACK_SIZE,
    ensures
        pop_all(push_all(s, vals), STACK_SIZE as nat).1 == vals.reverse(),
        pop_all(push_all(s, vals), STACK_SIZE as nat).0 == (State {
            stack: push_all(s, vals).stack,
            ..s
        }),
        push_all(s, vals).push(extra) == push_all(s, vals),
        s.pop() == (s, 0u16),
{
    lemma_push_all_effect(s, vals);
    let t = push_all(s, vals);
    lemma_pop_all_effect(t, STACK_SIZE as nat);
    assert(t.stack.subrange(0, STACK_SIZE as int) =~= t.stack);
    assert(t.stack =~= vals);
    assert(pop_all(t, STACK_SIZE as nat).0 =~= (State { stack: t.stack, ..s }));
}

/// Blitting the same sprite twice at the same anchor restores every cell:
/// the XOR-draw is its own inverse. On the second blit the collision flag
/// reports exactly whether some sprite pixel lands on a cell that the first
/// blit left on — equivalently, on a cell that was off before the first.
pub proof fn lemma_draw_twice(mem: Seq<u8>, i: u16, vx: int, vy: int, n: int, fb: Seq<Seq<bool>>)
    requires
        fb.len() == DISPLAY_WIDTH,
        forall|px: int| 0 <= px < DISPLAY_WIDTH ==> (#[trigger] fb[px]).len() == DISPLAY_HEIGHT,
    ensures
        draw_fb(mem, i, vx, vy, n, draw_fb(mem, i, vx, vy, n, fb)) == fb,
        draw_collision(mem, i, vx, vy, n, draw_fb(mem, i, vx, vy, n, fb)) == exists|px: int, py: int|
            0 <= px < DISPLAY_WIDTH && 0 <= py < DISPLAY_HEIGHT && #[trigger] draw_hits(
                mem,
                i,
                vx,
                vy,
                n,
                px,
                py,
            ) && !fb[px][py],
{
    let fb1 = draw_fb(mem, i, vx, vy, n, fb);
    let fb2 = draw_fb(mem, i, vx, vy, n, fb1);
    assert forall|px: int| 0 <= px < DISPLAY_WIDTH implies fb2[px] =~= fb[px] by {
        assert forall|py: int| 0 <= py < DISPLAY_HEIGHT implies fb2[px][py] == fb[px][py] by {}
    }
    assert(fb2 =~~= fb);

    let on_after_first = exists|px: int, py: int|
        0 <= px < fb1.len() && 0 <= py < fb1[px].len() && draw_hits(mem, i, vx, vy, n, px, py)
            && fb1[px][py];
    let off_before = exists|px: int, py: int|
        0 <= px < DISPLAY_WIDTH && 0 <= py < DISPLAY_HEIGHT && #[trigger] draw_hits(
            mem,
            i,
            vx,
            vy,
            n,
            px,
            py,
        ) && !fb[px][py];
    if on_after_first {
        let (px, py) = choose|px: int, py: int|
            0 <= px < fb1.len() && 0 <= py < fb1[px].len() && draw_hits(mem, i, vx, vy, n, px, py)
                && fb1[px][py];
        assert(fb1[px][py] == !fb[px][py]);
        assert(off_before);
    }
    if off_before {
        let (px, py) = choose|px: int, py: int|
            0 <= px < DISPLAY_WIDTH && 0 <= py < DISPLAY_HEIGHT && #[trigger] draw_hits(
                mem,
                i,
                vx,
                vy,
                n,
                px,
                py,
            ) && !fb[px][py];
        assert(fb1[px][py]);
        assert(on_after_first);
    }
}

/// The blit is clipped: a cell that no sprite pixel lands on — in
/// particular every cell left of the anchor, at or beyond eight columns
/// right of it, above it, or at or beyond `n` rows below it — keeps its
/// value. Cells beyond the display's edges do not exist at all, so nothing
/// wraps around.
pub proof fn lemma_draw_clips(mem: Seq<u8>, i: u16, vx: int, vy: int, n: int, fb: Seq<Seq<bool>>)
    requires
        fb.len() == DISPLAY_WIDTH,
        forall|px: int| 0 <= px < DISPLAY_WIDTH ==> (#[trigger] fb[px]).len() == DISPLAY_HEIGHT,
    ensures
        draw_fb(mem, i, vx, vy, n, fb).len() == DISPLAY_WIDTH,
        forall|px: int| 0 <= px < DISPLAY_WIDTH ==> (#[trigger] draw_fb(
            mem,
            i,
            vx,
            vy,
            n,
            fb,
        )[px]).len() == DISPLAY_HEIGHT,
        forall|px: int, py: int|
            0 <= px < DISPLAY_WIDTH && 0 <= py < DISPLAY_HEIGHT && !draw_hits(
                mem,
                i,
                vx,
                vy,
                n,
                px,
                py,
            ) ==> #[trigger] draw_fb(mem, i, vx, vy, n, fb)[px][py] == fb[px][py],
        forall|px: int, py: int|
            0 <= px < DISPLAY_WIDTH && 0 <= py < DISPLAY_HEIGHT && (px < vx || px >= vx + 8 || py
                < vy || py >= vy + n) ==> #[trigger] draw_fb(mem, i, vx, vy, n, fb)[px][py]
                == fb[px][py],
{
}

/// Only the random-masked load consults the random generator: while the
/// machine waits for a key, and for every fetched instruction of any other
/// class, the step's outcome does not depend on the byte the generator
/// produced.
pub proof fn lemma_step_random_independent(
    s: State,
    input: Seq<bool>,
    fb: Seq<Seq<bool>>,
    r1: u8,
    r2: u8,
)
    requires
        s.waiting is None ==> spec_c(s.fetch().1) != 0xC,
    ensures
        step_spec(s, input, fb, r1) == step_spec(s, input, fb, r2),
{
}

/// What the scan for a pressed key reports: `None` exactly when no key is
/// down, and otherwise the lowest index of a key that is down.
pub proof fn lemma_first_down_spec(input: Seq<bool>)
    ensures
        (first_down(input) is None) == (forall|j: int| 0 <= j < input.len() ==> !input[j]),
        first_down(input) matches Some(k) ==> 0 <= k < input.len() && input[k] && (forall|j: int|
            0 <= j < k ==> !input[j]),
{
    lemma_first_down_from_spec(input, 0);
}

proof fn lemma_first_down_from_spec(input: Seq<bool>, start: int)
    requires
        0 <= start <= input.len(),
    ensures
        (first_down_from(input, start) is None) == (forall|j: int|
            start <= j < input.len() ==> !input[j]),
        first_down_from(input, start) matches Some(k) ==> start <= k < input.len() && input[k] && (
        forall|j: int| start <= j < k ==> !input[j]),
    decreases input.len() - start,
{
    if start < input.len() && !input[start] {
        lemma_first_down_from_spec(input, start + 1);
    }
}

/// While the machine waits for a key and none is down, a step changes
/// nothing at all: neither the machine state nor the framebuffer.
pub proof fn lemma_wait_blocks(s: State, input: Seq<bool>, fb: Seq<Seq<bool>>, r: u8)
    requires
        s.wf(),
        s.waiting is Some,
        input.len() == INPUT_COUNT,
        forall|j: int| 0 <= j < input.len() ==> !input[j],
    ensures
        step_spec(s, input, fb, r) == (s, fb),
{
    lemma_first_down_spec(input);
}

/// The first step that observes a key down while the machine waits writes
/// the lowest such key's code to the awaited register and ends the
/// suspension — the program counter stays put, memory and framebuffer are
/// untouched, and the next step fetches normally.
pub proof fn lemma_wait_wakes(s: State, input: Seq<bool>, fb: Seq<Seq<bool>>, r: u8, x: usize)
    requires
        s.wf(),
        s.waiting == Some(x),
        input.len() == INPUT_COUNT,
        exists|j: int| 0 <= j < input.len() && input[j],
    ensures
        first_down(input) is Some,
        step_spec(s, input, fb, r).0 == (State {
            v: s.v.update(x as int, first_down(input)->Some_0 as u8),
            waiting: None,
            ..s
        }),
        step_spec(s, input, fb, r).0.pc == s.pc,
        step_spec(s, input, fb, r).0.mem == s.mem,
        step_spec(s, input, fb, r).0.waiting is None,
        step_spec(s, input, fb, r).1 == fb,
{
    lemma_first_down_spec(input);
}

} // verus!
