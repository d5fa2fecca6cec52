use crate::isa::{CpuError, Instr};
use crate::model::{
    blank_display, draw_collides, draw_collides_upto, draw_display, draw_hit_upto, lemma_bit_at_le,
    lemma_first_pressed_found, lemma_first_pressed_none, lemma_xor_bits, spec_cycle, spec_exec,
    spec_fetch, sprite_bit, sprite_col, sprite_row, Chip8,
};
use vstd::prelude::*;

verus! {

broadcast use vstd::arithmetic::div_mod::lemma_mod_bound;

/// Whether an `n`-row sprite draw at `(vx, vy)` from address `i` sets at
/// least one bit on some covered pixel: a sprite that is not all zeroes.
pub open spec fn draw_sets_some_bit(mem: Seq<u8>, i: int, vx: u8, vy: u8, n: int) -> bool {
    exists|p: int|
        0 <= p < 2048 && #[trigger] draw_hit_upto(p, vx, vy, n, 0) && sprite_bit(mem, i, vx, vy, p)
            == 1
}

/// For a running machine whose next instruction word is the bytes 0x00,
/// 0xE0 (clear-screen), one cycle succeeds, clears the display, sets the
/// changed flag, and advances the program counter by exactly 2.
pub proof fn lemma_clear_screen(s: Chip8, rb: u8)
    requires
        s.wf(),
        !s.waiting,
        s.pc + 1 < 4096,
        s.mem[s.pc] == 0x00,
        s.mem[s.pc + 1] == 0xE0,
    ensures
        spec_cycle(s, rb).1 == Ok::<(), CpuError>(()),
        spec_cycle(s, rb).0.display == blank_display(),
        spec_cycle(s, rb).0.redraw,
        spec_cycle(s, rb).0.pc == s.pc + 2,
{
    assert(spec_fetch(s) == 0x00E0);
}

/// Drawing the same sprite twice at identical coordinates toggles every
/// covered pixel back: the framebuffer returns exactly to where it
/// started. And where the first draw collided with nothing while the
/// sprite sets at least one bit, the second draw collides — with the
/// sprite's own image. (A sprite whose set bits all land on already-lit
/// pixels collides at once instead, so the second draw finds those
/// pixels dark; such draws are left out here.)
pub proof fn lemma_draw_twice(d: Seq<u8>, mem: Seq<u8>, i: int, vx: u8, vy: u8, n: int)
    requires
        d.len() == 2048,
        forall|p: int| 0 <= p < 2048 ==> d[p] <= 1,
        0 <= n < 16,
    ensures
        draw_display(draw_display(d, mem, i, vx, vy, n), mem, i, vx, vy, n) == d,
        (!draw_collides(d, mem, i, vx, vy, n) && draw_sets_some_bit(mem, i, vx, vy, n))
            ==> draw_collides(draw_display(d, mem, i, vx, vy, n), mem, i, vx, vy, n),
{
    let d1 = draw_display(d, mem, i, vx, vy, n);
    assert forall|p: int| 0 <= p < 2048 implies draw_display(d1, mem, i, vx, vy, n)[p]
        == d[p] by {
        if draw_hit_upto(p, vx, vy, n, 0) {
            lemma_bit_at_le(mem[i + sprite_row(p, vy)], sprite_col(p, vx) as u8);
            lemma_xor_bits(d[p], sprite_bit(mem, i, vx, vy, p));
        }
    }
    assert(draw_display(d1, mem, i, vx, vy, n) =~= d);
    if !draw_collides(d, mem, i, vx, vy, n) && draw_sets_some_bit(mem, i, vx, vy, n) {
        let p = choose|p: int|
            0 <= p < 2048 && #[trigger] draw_hit_upto(p, vx, vy, n, 0) && sprite_bit(
                mem,
                i,
                vx,
                vy,
                p,
            ) == 1;
        if d[p] == 1 {
            assert(draw_collides_upto(d, mem, i, vx, vy, n, 0));
        }
        assert(d[p] == 0);
        lemma_bit_at_le(mem[i + sprite_row(p, vy)], sprite_col(p, vx) as u8);
        lemma_xor_bits(d[p], sprite_bit(mem, i, vx, vy, p));
        assert(d1[p] == 1);
        assert(draw_collides_upto(d1, mem, i, vx, vy, n, 0));
    }
}

/// A call pushes the return address and jumps to its target; the
/// matching return then restores the program counter to exactly
/// call-site + 2 and the stack depth to its pre-call value.
pub proof fn lemma_call_return(s: Chip8, nnn: u16, rb1: u8, rb2: u8)
    requires
        s.wf(),
        s.sp < 16,
        nnn < 0x1000,
    ensures
        ({
            let (s1, r1) = spec_exec(s, Instr::Call(nnn), rb1);
            let (s2, r2) = spec_exec(s1, Instr::Ret, rb2);
            &&& r1 == Ok::<(), CpuError>(())
            &&& s1.pc == nnn
            &&& s1.sp == s.sp + 1
            &&& r2 == Ok::<(), CpuError>(())
            &&& s2.pc == s.pc + 2
            &&& s2.sp == s.sp
            &&& s2.v == s.v
            &&& s2.mem == s.mem
        }),
{
}

/// A call attempted with the stack already at depth 16 fails
/// `StackOverflow` and leaves the machine unchanged.
pub proof fn lemma_call_overflow(s: Chip8, nnn: u16, rb: u8)
    requires
        s.sp == 16,
    ensures
        spec_exec(s, Instr::Call(nnn), rb).0 == s,
        spec_exec(s, Instr::Call(nnn), rb).1 == Err::<(), CpuError>(CpuError::StackOverflow),
{
}

/// A return attempted with an empty stack fails `StackUnderflow` and
/// leaves the machine unchanged.
pub proof fn lemma_return_underflow(s: Chip8, rb: u8)
    requires
        s.sp == 0,
    ensures
        spec_exec(s, Instr::Ret, rb).0 == s,
        spec_exec(s, Instr::Ret, rb).1 == Err::<(), CpuError>(CpuError::StackUnderflow),
{
}

/// Executing wait-key advances the program counter by 2 and enters the
/// blocked-on-input mode with target register x; nothing else changes.
pub proof fn lemma_wait_key_enters(s: Chip8, x: u8, rb: u8)
    requires
        x < 16,
    ensures
        spec_exec(s, Instr::WaitKey(x), rb).1 == Ok::<(), CpuError>(()),
        spec_exec(s, Instr::WaitKey(x), rb).0 == (Chip8 {
            waiting: true,
            wait_reg: x as int,
            pc: s.pc + 2,
            ..s
        }),
{
}

/// While blocked on input with no key pressed, a cycle succeeds and
/// changes nothing but the cleared "changed" flag: registers, memory,
/// display, timers, program counter and the mode all stay as they were,
/// for as many cycles as needed.
pub proof fn lemma_wait_no_key(s: Chip8, rb: u8)
    requires
        s.wf(),
        s.waiting,
        forall|j: int| 0 <= j < 16 ==> !s.keypad[j],
    ensures
        spec_cycle(s, rb).1 == Ok::<(), CpuError>(()),
        spec_cycle(s, rb).0 == (Chip8 { redraw: false, ..s }),
{
    lemma_first_pressed_none(s.keypad);
}

/// While blocked on input with a key pressed, a cycle latches the lowest
/// pressed index into the latched target register and leaves the
/// blocked mode; the timers do not decrement, nothing is fetched and
/// the program counter does not move.
pub proof fn lemma_wait_key_latched(s: Chip8, rb: u8, k: int)
    requires
        s.wf(),
        s.waiting,
        0 <= k < 16,
        s.keypad[k],
        forall|j: int| 0 <= j < k ==> !s.keypad[j],
    ensures
        spec_cycle(s, rb).1 == Ok::<(), CpuError>(()),
        spec_cycle(s, rb).0 == (Chip8 {
            redraw: false,
            v: s.v.update(s.wait_reg, k as u8),
            waiting: false,
            ..s
        }),
{
    lemma_first_pressed_found(s.keypad, k);
}

} // verus!
