use crate::isa::{decode, instr_wf, CpuError, Instr};
use crate::model::{
    blank_display, cycle_outcome, draw_collides_upto, draw_display_upto, draw_hit_upto, font,
    init_mem, init_state, lemma_bit_at_le, lemma_draw_bit_step, lemma_draw_empty,
    lemma_draw_row_step, lemma_first_pressed_found, lemma_first_pressed_none, lemma_flag_bit,
    lemma_xor_bits, load_mem, spec_cycle, spec_exec, spec_fetch, sprite_bit, sprite_col,
    sprite_row, Chip8,
};
use vstd::arithmetic::div_mod::lemma_mod_multiples_vanish;
use vstd::prelude::*;

verus! {

broadcast use vstd::array::group_array_axioms, vstd::arithmetic::div_mod::lemma_mod_bound;

/// The interpreter: all machine state, stepped one cycle at a time. Its
/// mathematical value is a `Chip8`; every operation's contract says what
/// it does to that value.
pub struct CPU {
    i: u16,
    pc: u16,
    mem: [u8; 4096],
    v: [u8; 16],
    stack: [u16; 16],
    sp: usize,
    dt: u8,
    st: u8,
    display: [u8; 2048],
    redraw: bool,
    keypad: [bool; 16],
    keypad_waiting: bool,
    keypad_register: usize,
}

impl View for CPU {
    type V = Chip8;

    closed spec fn view(&self) -> Chip8 {
        Chip8 {
            i: self.i as int,
            pc: self.pc as int,
            mem: self.mem@,
            v: self.v@,
            stack: self.stack@,
            sp: self.sp as int,
            dt: self.dt as int,
            st: self.st as int,
            display: self.display@,
            redraw: self.redraw,
            keypad: self.keypad@,
            waiting: self.keypad_waiting,
            wait_reg: self.keypad_register as int,
        }
    }
}

impl CPU {
    /// Well-formedness: the interpreter's value is a well-formed machine
    /// state. Construction establishes it and every operation keeps it.
    pub open spec fn wf(&self) -> bool {
        self@.wf()
    }

    /// A fresh machine: memory, registers, stack, timers, keypad and
    /// display zeroed, the 80-byte font table copied to the start of
    /// memory, the program counter at 0x200.
    #[verifier::loop_isolation(false)]
    pub fn new() -> (cpu: CPU)
        ensures
            cpu.wf(),
            cpu@ == init_state(),
    {
        let mut cpu = CPU {
            i: 0,
            pc: 0x200,
            mem: [0u8; 4096],
            v: [0u8; 16],
            stack: [0u16; 16],
            sp: 0,
            dt: 0,
            st: 0,
            display: [0u8; 2048],
            redraw: false,
            keypad: [false; 16],
            keypad_waiting: false,
            keypad_register: 0,
        };
        let fontset: [u8; 80] = [
            0xF0, 0x90, 0x90, 0x90, 0xF0, // 0
            0x20, 0x60, 0x20, 0x20, 0x70, // 1
            0xF0, 0x10, 0xF0, 0x80, 0xF0, // 2
            0xF0, 0x10, 0xF0, 0x10, 0xF0, // 3
            0x90, 0x90, 0xF0, 0x10, 0x10, // 4
            0xF0, 0x80, 0xF0, 0x10, 0xF0, // 5
            0xF0, 0x80, 0xF0, 0x90, 0xF0, // 6
            0xF0, 0x10, 0x20, 0x40, 0x40, // 7
            0xF0, 0x90, 0xF0, 0x90, 0xF0, // 8
            0xF0, 0x90, 0xF0, 0x10, 0xF0, // 9
            0xF0, 0x90, 0xF0, 0x90, 0x90, // A
            0xE0, 0x90, 0xE0, 0x90, 0xE0, // B
            0xF0, 0x80, 0x80, 0x80, 0xF0, // C
            0xE0, 0x90, 0x90, 0x90, 0xE0, // D
            0xF0, 0x80, 0xF0, 0x80, 0xF0, // E
            0xF0, 0x80, 0xF0, 0x80, 0x80, // F
        ];
        proof {
            assert(fontset@ =~= font());
        }
        let ghost cpu0 = cpu;
        let mut k: usize = 0;
        while k < 80
            invariant
                k <= 80,
                forall|j: int| 0 <= j < k ==> cpu.mem@[j] == font()[j],
                forall|j: int| k <= j < 4096 ==> cpu.mem@[j] == 0,
                cpu.i == cpu0.i,
                cpu.pc == cpu0.pc,
                cpu.v == cpu0.v,
                cpu.stack == cpu0.stack,
                cpu.sp == cpu0.sp,
                cpu.dt == cpu0.dt,
                cpu.st == cpu0.st,
                cpu.display == cpu0.display,
                cpu.redraw == cpu0.redraw,
                cpu.keypad == cpu0.keypad,
                cpu.keypad_waiting == cpu0.keypad_waiting,
                cpu.keypad_register == cpu0.keypad_register,
            decreases 80 - k,
        {
            cpu.mem[k] = fontset[k];
            k += 1;
        }
        proof {
            assert(cpu@.mem =~= init_mem());
            assert(cpu@.v =~= init_state().v);
            assert(cpu@.stack =~= init_state().stack);
            assert(cpu@.display =~= init_state().display);
            assert(cpu@.keypad =~= init_state().keypad);
            assert(cpu@ =~= init_state());
        }
        cpu
    }

    /// Copy a ROM image into memory starting at the program start address
    /// 0x200. An image longer than the 3584 bytes available from there is
    /// refused whole with `RomTooLarge`; otherwise every byte lands at
    /// its offset and the rest of memory is untouched.
    #[verifier::loop_isolation(false)]
    pub fn load(&mut self, data: &[u8]) -> (res: Result<(), CpuError>)
        requires
            old(self).wf(),
        ensures
            final(self).wf(),
            data@.len() <= 3584 ==> res == Ok::<(), CpuError>(()) && final(self)@ == (Chip8 {
                mem: load_mem(old(self)@.mem, data@),
                ..old(self)@
            }),
            data@.len() > 3584 ==> res == Err::<(), CpuError>(CpuError::RomTooLarge)
                && final(self)@ == old(self)@,
    {
        if data.len() > 3584 {
            return Err(CpuError::RomTooLarge);
        }
        let mut k: usize = 0;
        while k < data.len()
            invariant
                k <= data@.len(),
                forall|a: int|
                    0 <= a < 4096 ==> self.mem@[a] == if 0x200 <= a < 0x200 + k {
                        data@[a - 0x200]
                    } else {
                        old(self)@.mem[a]
                    },
                self.i == old(self).i,
                self.pc == old(self).pc,
                self.v == old(self).v,
                self.stack == old(self).stack,
                self.sp == old(self).sp,
                self.dt == old(self).dt,
                self.st == old(self).st,
                self.display == old(self).display,
                self.redraw == old(self).redraw,
                self.keypad == old(self).keypad,
                self.keypad_waiting == old(self).keypad_waiting,
                self.keypad_register == old(self).keypad_register,
            decreases data@.len() - k,
        {
            self.mem[0x200 + k] = data[k];
            k += 1;
        }
        proof {
            assert(self@.mem =~= load_mem(old(self)@.mem, data@));
            assert(self@ =~= (Chip8 { mem: load_mem(old(self)@.mem, data@), ..old(self)@ }));
        }
        Ok(())
    }

    /// Press keypad slot `index`.
    pub fn key_down(&mut self, index: usize)
        requires
            old(self).wf(),
            index < 16,
        ensures
            final(self).wf(),
            final(self)@ == (Chip8 {
                keypad: old(self)@.keypad.update(index as int, true),
                ..old(self)@
            }),
    {
        self.keypad[index] = true;
        proof {
            assert(self@ =~= (Chip8 {
                keypad: old(self)@.keypad.update(index as int, true),
                ..old(self)@
            }));
        }
    }

    /// Release keypad slot `index`.
    pub fn key_up(&mut self, index: usize)
        requires
            old(self).wf(),
            index < 16,
        ensures
            final(self).wf(),
            final(self)@ == (Chip8 {
                keypad: old(self)@.keypad.update(index as int, false),
                ..old(self)@
            }),
    {
        self.keypad[index] = false;
        proof {
            assert(self@ =~= (Chip8 {
                keypad: old(self)@.keypad.update(index as int, false),
                ..old(self)@
            }));
        }
    }

    /// The pixel at column `x`, row `y`: 1 lit, 0 dark.
    pub fn pixel(&self, x: usize, y: usize) -> (r: u8)
        requires
            x < 64,
            y < 32,
        ensures
            r == self@.display[y as int * 64 + x as int],
    {
        self.display[y * 64 + x]
    }

    /// The per-cycle "changed" flag: whether the last cycle mutated the
    /// display. The host reads it once per cycle to decide on a repaint;
    /// the next cycle clears it before re-evaluating.
    pub fn changed(&self) -> (r: bool)
        ensures
            r == self@.redraw,
    {
        self.redraw
    }

    /// General-purpose register `x`.
    pub fn reg(&self, x: usize) -> (r: u8)
        requires
            x < 16,
        ensures
            r == self@.v[x as int],
    {
        self.v[x]
    }

    /// The program counter.
    pub fn program_counter(&self) -> (r: u16)
        ensures
            r == self@.pc,
    {
        self.pc
    }

    /// The address register.
    pub fn index_reg(&self) -> (r: u16)
        ensures
            r == self@.i,
    {
        self.i
    }

    /// The delay timer.
    pub fn delay_timer(&self) -> (r: u8)
        ensures
            r == self@.dt,
    {
        self.dt
    }

    /// The sound timer.
    pub fn sound_timer(&self) -> (r: u8)
        ensures
            r == self@.st,
    {
        self.st
    }

    /// The call stack depth, 0 to 16.
    pub fn stack_depth(&self) -> (r: usize)
        ensures
            r == self@.sp,
    {
        self.sp
    }

    /// Whether the machine is in the blocked-on-input mode.
    pub fn waiting(&self) -> (r: bool)
        ensures
            r == self@.waiting,
    {
        self.keypad_waiting
    }

    /// The memory byte at `addr`.
    pub fn mem_byte(&self, addr: usize) -> (r: u8)
        requires
            addr < 4096,
        ensures
            r == self@.mem[addr as int],
    {
        self.mem[addr]
    }

    /// The big-endian instruction word at the program counter.
    fn opcode(&self) -> (op: u16)
        requires
            self.wf(),
            self@.pc + 1 < 4096,
        ensures
            op == spec_fetch(self@),
    {
        let hi = self.mem[self.pc as usize];
        let lo = self.mem[(self.pc + 1) as usize];
        (hi as u16) * 256 + (lo as u16)
    }

    /// clear-screen: zero the display, mark it changed.
    #[verifier::loop_isolation(false)]
    fn op_00e0(&mut self)
        requires
            old(self).wf(),
            old(self)@.pc <= 4094,
        ensures
            final(self).wf(),
            final(self)@ == spec_exec(old(self)@, Instr::Cls, 0).0,
    {
        let mut p: usize = 0;
        while p < 2048
            invariant
                p <= 2048,
                forall|j: int| 0 <= j < p ==> self.display@[j] == 0,
                forall|j: int| p <= j < 2048 ==> self.display@[j] == old(self).display@[j],
                self.i == old(self).i,
                self.pc == old(self).pc,
                self.mem == old(self).mem,
                self.v == old(self).v,
                self.stack == old(self).stack,
                self.sp == old(self).sp,
                self.dt == old(self).dt,
                self.st == old(self).st,
                self.redraw == old(self).redraw,
                self.keypad == old(self).keypad,
                self.keypad_waiting == old(self).keypad_waiting,
                self.keypad_register == old(self).keypad_register,
            decreases 2048 - p,
        {
            self.display[p] = 0;
            p += 1;
        }
        self.redraw = true;
        self.pc = self.pc + 2;
        proof {
            assert(self@.display =~= blank_display());
            assert(self@ =~= spec_exec(old(self)@, Instr::Cls, 0).0);
        }
    }

    /// return: pop the program counter, or `StackUnderflow` on an empty
    /// stack.
    fn op_00ee(&mut self) -> (res: Result<(), CpuError>)
        requires
            old(self).wf(),
            old(self)@.pc <= 4094,
        ensures
            final(self).wf(),
            final(self)@ == spec_exec(old(self)@, Instr::Ret, 0).0,
            res == spec_exec(old(self)@, Instr::Ret, 0).1,
    {
        if self.sp == 0 {
            return Err(CpuError::StackUnderflow);
        }
        self.sp = self.sp - 1;
        self.pc = self.stack[self.sp];
        proof {
            assert(self@ =~= spec_exec(old(self)@, Instr::Ret, 0).0);
        }
        Ok(())
    }

    /// jump: the program counter is set to the 12-bit target as given.
    fn op_1nnn(&mut self, nnn: u16)
        requires
            old(self).wf(),
            nnn < 0x1000,
        ensures
            final(self).wf(),
            final(self)@ == spec_exec(old(self)@, Instr::Jump(nnn), 0).0,
    {
        self.pc = nnn;
        proof {
            assert(self@ =~= spec_exec(old(self)@, Instr::Jump(nnn), 0).0);
        }
    }

    /// call: push the return address, or `StackOverflow` at depth 16.
    fn op_2nnn(&mut self, nnn: u16) -> (res: Result<(), CpuError>)
        requires
            old(self).wf(),
            old(self)@.pc <= 4094,
            nnn < 0x1000,
        ensures
            final(self).wf(),
            final(self)@ == spec_exec(old(self)@, Instr::Call(nnn), 0).0,
            res == spec_exec(old(self)@, Instr::Call(nnn), 0).1,
    {
        if self.sp >= 16 {
            return Err(CpuError::StackOverflow);
        }
        self.stack[self.sp] = self.pc + 2;
        self.sp = self.sp + 1;
        self.pc = nnn;
        proof {
            assert(self@ =~= spec_exec(old(self)@, Instr::Call(nnn), 0).0);
        }
        Ok(())
    }

    /// skip-eq-imm: skip the next instruction word if Vx equals the
    /// immediate.
    fn op_3xnn(&mut self, x: u8, nn: u8)
        requires
            old(self).wf(),
            old(self)@.pc <= 4094,
            x < 16,
        ensures
            final(self).wf(),
            final(self)@ == spec_exec(old(self)@, Instr::SkipEqImm(x, nn), 0).0,
    {
        if self.v[x as usize] == nn {
            self.pc = self.pc + 4;
        } else {
            self.pc = self.pc + 2;
        }
        proof {
            assert(self@ =~= spec_exec(old(self)@, Instr::SkipEqImm(x, nn), 0).0);
        }
    }

    /// skip-ne-imm: skip if Vx differs from the immediate.
    fn op_4xnn(&mut self, x: u8, nn: u8)
        requires
            old(self).wf(),
            old(self)@.pc <= 4094,
            x < 16,
        ensures
            final(self).wf(),
            final(self)@ == spec_exec(old(self)@, Instr::SkipNeImm(x, nn), 0).0,
    {
        if self.v[x as usize] != nn {
            self.pc = self.pc + 4;
        } else {
            self.pc = self.pc + 2;
        }
        proof {
            assert(self@ =~= spec_exec(old(self)@, Instr::SkipNeImm(x, nn), 0).0);
        }
    }

    /// skip-eq-reg: skip if Vx equals Vy.
    fn op_5xy0(&mut self, x: u8, y: u8)
        requires
            old(self).wf(),
            old(self)@.pc <= 4094,
            x < 16,
            y < 16,
        ensures
            final(self).wf(),
            final(self)@ == spec_exec(old(self)@, Instr::SkipEqReg(x, y), 0).0,
    {
        if self.v[x as usize] == self.v[y as usize] {
            self.pc = self.pc + 4;
        } else {
            self.pc = self.pc + 2;
        }
        proof {
            assert(self@ =~= spec_exec(old(self)@, Instr::SkipEqReg(x, y), 0).0);
        }
    }

    /// load-imm: Vx = nn.
    fn op_6xnn(&mut self, x: u8, nn: u8)
        requires
            old(self).wf(),
            old(self)@.pc <= 4094,
            x < 16,
        ensures
            final(self).wf(),
            final(self)@ == spec_exec(old(self)@, Instr::LoadImm(x, nn), 0).0,
    {
        self.v[x as usize] = nn;
        self.pc = self.pc + 2;
        proof {
            assert(self@ =~= spec_exec(old(self)@, Instr::LoadImm(x, nn), 0).0);
        }
    }

    /// add-imm: Vx = (Vx + nn) mod 256, with no flag update.
    fn op_7xnn(&mut self, x: u8, nn: u8)
        requires
            old(self).wf(),
            old(self)@.pc <= 4094,
            x < 16,
        ensures
            final(self).wf(),
            final(self)@ == spec_exec(old(self)@, Instr::AddImm(x, nn), 0).0,
    {
        let vx = self.v[x as usize];
        self.v[x as usize] = ((vx as u16 + nn as u16) % 256) as u8;
        self.pc = self.pc + 2;
        proof {
            assert(self@ =~= spec_exec(old(self)@, Instr::AddImm(x, nn), 0).0);
        }
    }

    /// move: Vx = Vy.
    fn op_8xy0(&mut self, x: u8, y: u8)
        requires
            old(self).wf(),
            old(self)@.pc <= 4094,
            x < 16,
            y < 16,
        ensures
            final(self).wf(),
            final(self)@ == spec_exec(old(self)@, Instr::Move(x, y), 0).0,
    {
        self.v[x as usize] = self.v[y as usize];
        self.pc = self.pc + 2;
        proof {
            assert(self@ =~= spec_exec(old(self)@, Instr::Move(x, y), 0).0);
        }
    }

    /// or: Vx = Vx | Vy.
    fn op_8xy1(&mut self, x: u8, y: u8)
        requires
            old(self).wf(),
            old(self)@.pc <= 4094,
            x < 16,
            y < 16,
        ensures
            final(self).wf(),
            final(self)@ == spec_exec(old(self)@, Instr::Or(x, y), 0).0,
    {
        let r = self.v[x as usize] | self.v[y as usize];
        self.v[x as usize] = r;
        self.pc = self.pc + 2;
        proof {
            assert(self@ =~= spec_exec(old(self)@, Instr::Or(x, y), 0).0);
        }
    }

    /// and: Vx = Vx & Vy.
    fn op_8xy2(&mut self, x: u8, y: u8)
        requires
            old(self).wf(),
            old(self)@.pc <= 4094,
            x < 16,
            y < 16,
        ensures
            final(self).wf(),
            final(self)@ == spec_exec(old(self)@, Instr::And(x, y), 0).0,
    {
        let r = self.v[x as usize] & self.v[y as usize];
        self.v[x as usize] = r;
        self.pc = self.pc + 2;
        proof {
            assert(self@ =~= spec_exec(old(self)@, Instr::And(x, y), 0).0);
        }
    }

    /// xor: Vx = Vx ^ Vy.
    fn op_8xy3(&mut self, x: u8, y: u8)
        requires
            old(self).wf(),
            old(self)@.pc <= 4094,
            x < 16,
            y < 16,
        ensures
            final(self).wf(),
            final(self)@ == spec_exec(old(self)@, Instr::Xor(x, y), 0).0,
    {
        let r = self.v[x as usize] ^ self.v[y as usize];
        self.v[x as usize] = r;
        self.pc = self.pc + 2;
        proof {
            assert(self@ =~= spec_exec(old(self)@, Instr::Xor(x, y), 0).0);
        }
    }

    /// add: Vx = (Vx + Vy) mod 256, VF = carry.
    fn op_8xy4(&mut self, x: u8, y: u8)
        requires
            old(self).wf(),
            old(self)@.pc <= 4094,
            x < 16,
            y < 16,
        ensures
            final(self).wf(),
            final(self)@ == spec_exec(old(self)@, Instr::Add(x, y), 0).0,
    {
        let sum = self.v[x as usize] as u16 + self.v[y as usize] as u16;
        self.v[x as usize] = (sum % 256) as u8;
        self.v[15] = if sum > 255 {
            1
        } else {
            0
        };
        self.pc = self.pc + 2;
        proof {
            assert(self@ =~= spec_exec(old(self)@, Instr::Add(x, y), 0).0);
        }
    }

    /// sub: VF = 1 exactly when Vx > Vy, then Vx = (Vx - Vy) mod 256.
    fn op_8xy5(&mut self, x: u8, y: u8)
        requires
            old(self).wf(),
            old(self)@.pc <= 4094,
            x < 16,
            y < 16,
        ensures
            final(self).wf(),
            final(self)@ == spec_exec(old(self)@, Instr::Sub(x, y), 0).0,
    {
        let a = self.v[x as usize];
        let b = self.v[y as usize];
        let flag: u8 = if a > b {
            1
        } else {
            0
        };
        let diff = ((a as u16 + 256 - b as u16) % 256) as u8;
        self.v[15] = flag;
        self.v[x as usize] = diff;
        self.pc = self.pc + 2;
        proof {
            lemma_mod_multiples_vanish(1, a - b, 256);
            assert(self@ =~= spec_exec(old(self)@, Instr::Sub(x, y), 0).0);
        }
    }

    /// shr: VF = the low bit of Vx, then Vx is halved.
    fn op_8x06(&mut self, x: u8)
        requires
            old(self).wf(),
            old(self)@.pc <= 4094,
            x < 16,
        ensures
            final(self).wf(),
            final(self)@ == spec_exec(old(self)@, Instr::Shr(x), 0).0,
    {
        let a = self.v[x as usize];
        self.v[15] = a % 2;
        self.v[x as usize] = a / 2;
        self.pc = self.pc + 2;
        proof {
            assert(self@ =~= spec_exec(old(self)@, Instr::Shr(x), 0).0);
        }
    }

    /// subn: VF = 1 exactly when Vy > Vx, then Vx = (Vy - Vx) mod 256.
    fn op_8xy7(&mut self, x: u8, y: u8)
        requires
            old(self).wf(),
            old(self)@.pc <= 4094,
            x < 16,
            y < 16,
        ensures
            final(self).wf(),
            final(self)@ == spec_exec(old(self)@, Instr::SubN(x, y), 0).0,
    {
        let a = self.v[x as usize];
        let b = self.v[y as usize];
        let flag: u8 = if b > a {
            1
        } else {
            0
        };
        let diff = ((b as u16 + 256 - a as u16) % 256) as u8;
        self.v[15] = flag;
        self.v[x as usize] = diff;
        self.pc = self.pc + 2;
        proof {
            lemma_mod_multiples_vanish(1, b - a, 256);
            assert(self@ =~= spec_exec(old(self)@, Instr::SubN(x, y), 0).0);
        }
    }

    /// shl: VF = the top bit of Vx, then Vx = (2 * Vx) mod 256.
    fn op_8xye(&mut self, x: u8)
        requires
            old(self).wf(),
            old(self)@.pc <= 4094,
            x < 16,
        ensures
            final(self).wf(),
            final(self)@ == spec_exec(old(self)@, Instr::Shl(x), 0).0,
    {
        let a = self.v[x as usize];
        self.v[15] = a / 128;
        self.v[x as usize] = ((a as u16 * 2) % 256) as u8;
        self.pc = self.pc + 2;
        proof {
            assert(self@ =~= spec_exec(old(self)@, Instr::Shl(x), 0).0);
        }
    }

    /// skip-ne-reg: skip if Vx differs from Vy.
    fn op_9xy0(&mut self, x: u8, y: u8)
        requires
            old(self).wf(),
            old(self)@.pc <= 4094,
            x < 16,
            y < 16,
        ensures
            final(self).wf(),
            final(self)@ == spec_exec(old(self)@, Instr::SkipNeReg(x, y), 0).0,
    {
        if self.v[x as usize] != self.v[y as usize] {
            self.pc = self.pc + 4;
        } else {
            self.pc = self.pc + 2;
        }
        proof {
            assert(self@ =~= spec_exec(old(self)@, Instr::SkipNeReg(x, y), 0).0);
        }
    }

    /// load-i: I = nnn.
    fn op_annn(&mut self, nnn: u16)
        requires
            old(self).wf(),
            old(self)@.pc <= 4094,
            nnn < 0x1000,
        ensures
            final(self).wf(),
            final(self)@ == spec_exec(old(self)@, Instr::LoadI(nnn), 0).0,
    {
        self.i = nnn;
        self.pc = self.pc + 2;
        proof {
            assert(self@ =~= spec_exec(old(self)@, Instr::LoadI(nnn), 0).0);
        }
    }

    /// jump-offset: the program counter is set to nnn + V0.
    fn op_bnnn(&mut self, nnn: u16)
        requires
            old(self).wf(),
            nnn < 0x1000,
        ensures
            final(self).wf(),
            final(self)@ == spec_exec(old(self)@, Instr::JumpV0(nnn), 0).0,
    {
        self.pc = nnn + self.v[0] as u16;
        proof {
            assert(self@ =~= spec_exec(old(self)@, Instr::JumpV0(nnn), 0).0);
        }
    }

    /// rand: Vx = the supplied random byte masked with nn.
    fn op_cxnn(&mut self, x: u8, nn: u8, rb: u8)
        requires
            old(self).wf(),
            old(self)@.pc <= 4094,
            x < 16,
        ensures
            final(self).wf(),
            final(self)@ == spec_exec(old(self)@, Instr::Rand(x, nn), rb).0,
    {
        self.v[x as usize] = rb & nn;
        self.pc = self.pc + 2;
        proof {
            assert(self@ =~= spec_exec(old(self)@, Instr::Rand(x, nn), rb).0);
        }
    }

    /// skip-key: skip if the key selected by the low four bits of Vx is
    /// pressed.
    fn op_ex9e(&mut self, x: u8)
        requires
            old(self).wf(),
            old(self)@.pc <= 4094,
            x < 16,
        ensures
            final(self).wf(),
            final(self)@ == spec_exec(old(self)@, Instr::SkipKey(x), 0).0,
    {
        let k = (self.v[x as usize] % 16) as usize;
        if self.keypad[k] {
            self.pc = self.pc + 4;
        } else {
            self.pc = self.pc + 2;
        }
        proof {
            assert(self@ =~= spec_exec(old(self)@, Instr::SkipKey(x), 0).0);
        }
    }

    /// skip-nokey: skip if that key is not pressed.
    fn op_exa1(&mut self, x: u8)
        requires
            old(self).wf(),
            old(self)@.pc <= 4094,
            x < 16,
        ensures
            final(self).wf(),
            final(self)@ == spec_exec(old(self)@, Instr::SkipNoKey(x), 0).0,
    {
        let k = (self.v[x as usize] % 16) as usize;
        if !self.keypad[k] {
            self.pc = self.pc + 4;
        } else {
            self.pc = self.pc + 2;
        }
        proof {
            assert(self@ =~= spec_exec(old(self)@, Instr::SkipNoKey(x), 0).0);
        }
    }

    /// load-dt: Vx = delay timer.
    fn op_fx07(&mut self, x: u8)
        requires
            old(self).wf(),
            old(self)@.pc <= 4094,
            x < 16,
        ensures
            final(self).wf(),
            final(self)@ == spec_exec(old(self)@, Instr::LoadDt(x), 0).0,
    {
        self.v[x as usize] = self.dt;
        self.pc = self.pc + 2;
        proof {
            assert(self@ =~= spec_exec(old(self)@, Instr::LoadDt(x), 0).0);
        }
    }

    /// wait-key: enter the blocked-on-input mode with target register x.
    fn op_fx0a(&mut self, x: u8)
        requires
            old(self).wf(),
            old(self)@.pc <= 4094,
            x < 16,
        ensures
            final(self).wf(),
            final(self)@ == spec_exec(old(self)@, Instr::WaitKey(x), 0).0,
    {
        self.keypad_waiting = true;
        self.keypad_register = x as usize;
        self.pc = self.pc + 2;
        proof {
            assert(self@ =~= spec_exec(old(self)@, Instr::WaitKey(x), 0).0);
        }
    }

    /// set-dt: delay timer = Vx.
    fn op_fx15(&mut self, x: u8)
        requires
            old(self).wf(),
            old(self)@.pc <= 4094,
            x < 16,
        ensures
            final(self).wf(),
            final(self)@ == spec_exec(old(self)@, Instr::SetDt(x), 0).0,
    {
        self.dt = self.v[x as usize];
        self.pc = self.pc + 2;
        proof {
            assert(self@ =~= spec_exec(old(self)@, Instr::SetDt(x), 0).0);
        }
    }

    /// set-st: sound timer = Vx.
    fn op_fx18(&mut self, x: u8)
        requires
            old(self).wf(),
            old(self)@.pc <= 4094,
            x < 16,
        ensures
            final(self).wf(),
            final(self)@ == spec_exec(old(self)@, Instr::SetSt(x), 0).0,
    {
        self.st = self.v[x as usize];
        self.pc = self.pc + 2;
        proof {
            assert(self@ =~= spec_exec(old(self)@, Instr::SetSt(x), 0).0);
        }
    }

    /// add-i: I = (I + Vx) mod 2^16, VF = 1 exactly when the new I
    /// exceeds 0x0F00 — a deliberately kept quirk: the overflow bound is
    /// not the top of the address space.
    fn op_fx1e(&mut self, x: u8)
        requires
            old(self).wf(),
            old(self)@.pc <= 4094,
            x < 16,
        ensures
            final(self).wf(),
            final(self)@ == spec_exec(old(self)@, Instr::AddI(x), 0).0,
    {
        let vx = self.v[x as usize];
        let ni = ((self.i as u32 + vx as u32) % 0x10000) as u16;
        self.i = ni;
        self.v[15] = if ni > 0x0F00 {
            1
        } else {
            0
        };
        self.pc = self.pc + 2;
        proof {
            assert(self@ =~= spec_exec(old(self)@, Instr::AddI(x), 0).0);
        }
    }

    /// font-addr: I = 5 * Vx, the address of the glyph for hex digit Vx.
    fn op_fx29(&mut self, x: u8)
        requires
            old(self).wf(),
            old(self)@.pc <= 4094,
            x < 16,
        ensures
            final(self).wf(),
            final(self)@ == spec_exec(old(self)@, Instr::FontAddr(x), 0).0,
    {
        self.i = self.v[x as usize] as u16 * 5;
        self.pc = self.pc + 2;
        proof {
            assert(self@ =~= spec_exec(old(self)@, Instr::FontAddr(x), 0).0);
        }
    }

    /// bcd: store the hundreds, tens and ones digits of Vx at I, I+1,
    /// I+2; `IllegalOpcode` if that runs past the end of memory.
    fn op_fx33(&mut self, x: u8) -> (res: Result<(), CpuError>)
        requires
            old(self).wf(),
            old(self)@.pc <= 4094,
            x < 16,
        ensures
            final(self).wf(),
            final(self)@ == spec_exec(old(self)@, Instr::Bcd(x), 0).0,
            res == spec_exec(old(self)@, Instr::Bcd(x), 0).1,
    {
        if self.i as usize + 2 >= 4096 {
            return Err(CpuError::IllegalOpcode);
        }
        let a = self.v[x as usize];
        let base = self.i as usize;
        self.mem[base] = a / 100;
        self.mem[base + 1] = (a % 100) / 10;
        self.mem[base + 2] = a % 10;
        self.pc = self.pc + 2;
        proof {
            assert(self@ =~= spec_exec(old(self)@, Instr::Bcd(x), 0).0);
        }
        Ok(())
    }

    /// store-regs: copy V0..=Vx to memory at I; `IllegalOpcode` if that
    /// runs past the end of memory.
    #[verifier::loop_isolation(false)]
    fn op_fx55(&mut self, x: u8) -> (res: Result<(), CpuError>)
        requires
            old(self).wf(),
            old(self)@.pc <= 4094,
            x < 16,
        ensures
            final(self).wf(),
            final(self)@ == spec_exec(old(self)@, Instr::StoreRegs(x), 0).0,
            res == spec_exec(old(self)@, Instr::StoreRegs(x), 0).1,
    {
        if self.i as usize + x as usize >= 4096 {
            return Err(CpuError::IllegalOpcode);
        }
        let base = self.i as usize;
        let mut j: usize = 0;
        while j <= x as usize
            invariant
                j <= x + 1,
                base == old(self)@.i,
                forall|a: int|
                    0 <= a < 4096 ==> self.mem@[a] == if base <= a < base + j {
                        old(self)@.v[a - base]
                    } else {
                        old(self)@.mem[a]
                    },
                self.i == old(self).i,
                self.pc == old(self).pc,
                self.v == old(self).v,
                self.stack == old(self).stack,
                self.sp == old(self).sp,
                self.dt == old(self).dt,
                self.st == old(self).st,
                self.display == old(self).display,
                self.redraw == old(self).redraw,
                self.keypad == old(self).keypad,
                self.keypad_waiting == old(self).keypad_waiting,
                self.keypad_register == old(self).keypad_register,
            decreases x + 1 - j,
        {
            self.mem[base + j] = self.v[j];
            j += 1;
        }
        self.pc = self.pc + 2;
        proof {
            assert(self@.mem =~= spec_exec(old(self)@, Instr::StoreRegs(x), 0).0.mem);
            assert(self@ =~= spec_exec(old(self)@, Instr::StoreRegs(x), 0).0);
        }
        Ok(())
    }

    /// load-regs: copy memory at I into V0..=Vx; `IllegalOpcode` if that
    /// runs past the end of memory.
    #[verifier::loop_isolation(false)]
    fn op_fx65(&mut self, x: u8) -> (res: Result<(), CpuError>)
        requires
            old(self).wf(),
            old(self)@.pc <= 4094,
            x < 16,
        ensures
            final(self).wf(),
            final(self)@ == spec_exec(old(self)@, Instr::LoadRegs(x), 0).0,
            res == spec_exec(old(self)@, Instr::LoadRegs(x), 0).1,
    {
        if self.i as usize + x as usize >= 4096 {
            return Err(CpuError::IllegalOpcode);
        }
        let base = self.i as usize;
        let mut j: usize = 0;
        while j <= x as usize
            invariant
                j <= x + 1,
                base == old(self)@.i,
                forall|k: int|
                    0 <= k < 16 ==> self.v@[k] == if 0 <= k < j {
                        old(self)@.mem[base + k]
                    } else {
                        old(self)@.v[k]
                    },
                self.i == old(self).i,
                self.pc == old(self).pc,
                self.mem == old(self).mem,
                self.stack == old(self).stack,
                self.sp == old(self).sp,
                self.dt == old(self).dt,
                self.st == old(self).st,
                self.display == old(self).display,
                self.redraw == old(self).redraw,
                self.keypad == old(self).keypad,
                self.keypad_waiting == old(self).keypad_waiting,
                self.keypad_register == old(self).keypad_register,
            decreases x + 1 - j,
        {
            self.v[j] = self.mem[base + j];
            j += 1;
        }
        self.pc = self.pc + 2;
        proof {
            assert(self@.v =~= spec_exec(old(self)@, Instr::LoadRegs(x), 0).0.v);
            assert(self@ =~= spec_exec(old(self)@, Instr::LoadRegs(x), 0).0);
        }
        Ok(())
    }

    /// draw: XOR an `n`-row sprite read from memory at I onto the display
    /// at (Vx, Vy), each axis wrapping independently; VF reports whether
    /// any already-lit pixel was hit where the sprite also sets a bit.
    /// `IllegalOpcode` if the sprite rows run past the end of memory.
    #[verifier::loop_isolation(false)]
    fn op_dxyn(&mut self, x: u8, y: u8, n: u8) -> (res: Result<(), CpuError>)
        requires
            old(self).wf(),
            old(self)@.pc <= 4094,
            x < 16,
            y < 16,
            n < 16,
        ensures
            final(self).wf(),
            final(self)@ == spec_exec(old(self)@, Instr::Draw(x, y, n), 0).0,
            res == spec_exec(old(self)@, Instr::Draw(x, y, n), 0).1,
    {
        let vx = self.v[x as usize];
        let vy = self.v[y as usize];
        if n > 0 && self.i as usize + n as usize > 4096 {
            return Err(CpuError::IllegalOpcode);
        }
        let ghost d0 = old(self)@.display;
        let ghost mem0 = old(self)@.mem;
        let ghost i0 = old(self)@.i;
        let ghost v0 = old(self)@.v;
        self.v[15] = 0;
        proof {
            lemma_draw_empty(d0, mem0, i0, vx, vy);
        }
        let mut row: u8 = 0;
        while row < n
            invariant
                row <= n,
                self.display@ == draw_display_upto(d0, mem0, i0, vx, vy, row as int, 0),
                self.v@ == v0.update(
                    15,
                    if draw_collides_upto(d0, mem0, i0, vx, vy, row as int, 0) {
                        1u8
                    } else {
                        0u8
                    },
                ),
                self.i == old(self).i,
                self.pc == old(self).pc,
                self.mem == old(self).mem,
                self.stack == old(self).stack,
                self.sp == old(self).sp,
                self.dt == old(self).dt,
                self.st == old(self).st,
                self.redraw == old(self).redraw,
                self.keypad == old(self).keypad,
                self.keypad_waiting == old(self).keypad_waiting,
                self.keypad_register == old(self).keypad_register,
            decreases n - row,
        {
            let py = (vy as usize + row as usize) % 32;
            let sprite = self.mem[self.i as usize + row as usize];
            let mut bit: u8 = 0;
            while bit < 8
                invariant
                    bit <= 8,
                    row < n,
                    py == (vy + row) % 32,
                    sprite == mem0[i0 + row],
                    self.display@ == draw_display_upto(
                        d0,
                        mem0,
                        i0,
                        vx,
                        vy,
                        row as int,
                        bit as int,
                    ),
                    self.v@ == v0.update(
                        15,
                        if draw_collides_upto(d0, mem0, i0, vx, vy, row as int, bit as int) {
                            1u8
                        } else {
                            0u8
                        },
                    ),
                    self.i == old(self).i,
                    self.pc == old(self).pc,
                    self.mem == old(self).mem,
                    self.stack == old(self).stack,
                    self.sp == old(self).sp,
                    self.dt == old(self).dt,
                    self.st == old(self).st,
                    self.redraw == old(self).redraw,
                    self.keypad == old(self).keypad,
                    self.keypad_waiting == old(self).keypad_waiting,
                    self.keypad_register == old(self).keypad_register,
                decreases 8 - bit,
            {
                let px = (vx as usize + bit as usize) % 64;
                let color = (sprite >> (7 - bit)) & 1;
                let p = py * 64 + px;
                let old_pix = self.display[p];
                let vf = self.v[15];
                proof {
                    lemma_draw_bit_step(d0, mem0, i0, vx, vy, n, row as int, bit as int);
                    assert(color == sprite_bit(mem0, i0, vx, vy, p as int));
                    assert(old_pix == d0[p as int]);
                    lemma_bit_at_le(sprite, bit);
                    lemma_flag_bit(vf, color, old_pix);
                    lemma_xor_bits(old_pix, color);
                }
                self.v[15] = vf | (color & old_pix);
                self.display[p] = old_pix ^ color;
                proof {
                    assert(self.display@ =~= draw_display_upto(
                        d0,
                        mem0,
                        i0,
                        vx,
                        vy,
                        row as int,
                        bit as int + 1,
                    ));
                    assert(self.v@ =~= v0.update(
                        15,
                        if draw_collides_upto(d0, mem0, i0, vx, vy, row as int, bit as int + 1) {
                            1u8
                        } else {
                            0u8
                        },
                    ));
                }
                bit += 1;
            }
            proof {
                lemma_draw_row_step(d0, mem0, i0, vx, vy, row as int);
            }
            row += 1;
        }
        self.redraw = true;
        self.pc = self.pc + 2;
        proof {
            assert forall|p: int| 0 <= p < 2048 implies self.display@[p] <= 1 by {
                if draw_hit_upto(p, vx, vy, n as int, 0) {
                    lemma_bit_at_le(mem0[i0 + sprite_row(p, vy)], sprite_col(p, vx) as u8);
                    lemma_xor_bits(d0[p], sprite_bit(mem0, i0, vx, vy, p));
                }
            }
            assert(self@ =~= spec_exec(old(self)@, Instr::Draw(x, y, n), 0).0);
        }
        Ok(())
    }

    /// Dispatch one decoded instruction to its handler.
    fn exec(&mut self, ins: Instr, rb: u8) -> (res: Result<(), CpuError>)
        requires
            old(self).wf(),
            old(self)@.pc <= 4094,
            instr_wf(ins),
        ensures
            final(self).wf(),
            final(self)@ == spec_exec(old(self)@, ins, rb).0,
            res == spec_exec(old(self)@, ins, rb).1,
    {
        match ins {
            Instr::Cls => {
                self.op_00e0();
                Ok(())
            },
            Instr::Ret => self.op_00ee(),
            Instr::Jump(nnn) => {
                self.op_1nnn(nnn);
                Ok(())
            },
            Instr::Call(nnn) => self.op_2nnn(nnn),
            Instr::SkipEqImm(x, nn) => {
                self.op_3xnn(x, nn);
                Ok(())
            },
            Instr::SkipNeImm(x, nn) => {
                self.op_4xnn(x, nn);
                Ok(())
            },
            Instr::SkipEqReg(x, y) => {
                self.op_5xy0(x, y);
                Ok(())
            },
            Instr::LoadImm(x, nn) => {
                self.op_6xnn(x, nn);
                Ok(())
            },
            Instr::AddImm(x, nn) => {
                self.op_7xnn(x, nn);
                Ok(())
            },
            Instr::Move(x, y) => {
                self.op_8xy0(x, y);
                Ok(())
            },
            Instr::Or(x, y) => {
                self.op_8xy1(x, y);
                Ok(())
            },
            Instr::And(x, y) => {
                self.op_8xy2(x, y);
                Ok(())
            },
            Instr::Xor(x, y) => {
                self.op_8xy3(x, y);
                Ok(())
            },
            Instr::Add(x, y) => {
                self.op_8xy4(x, y);
                Ok(())
            },
            Instr::Sub(x, y) => {
                self.op_8xy5(x, y);
                Ok(())
            },
            Instr::Shr(x) => {
                self.op_8x06(x);
                Ok(())
            },
            Instr::SubN(x, y) => {
                self.op_8xy7(x, y);
                Ok(())
            },
            Instr::Shl(x) => {
                self.op_8xye(x);
                Ok(())
            },
            Instr::SkipNeReg(x, y) => {
                self.op_9xy0(x, y);
                Ok(())
            },
            Instr::LoadI(nnn) => {
                self.op_annn(nnn);
                Ok(())
            },
            Instr::JumpV0(nnn) => {
                self.op_bnnn(nnn);
                Ok(())
            },
            Instr::Rand(x, nn) => {
                self.op_cxnn(x, nn, rb);
                Ok(())
            },
            Instr::Draw(x, y, n) => self.op_dxyn(x, y, n),
            Instr::SkipKey(x) => {
                self.op_ex9e(x);
                Ok(())
            },
            Instr::SkipNoKey(x) => {
                self.op_exa1(x);
                Ok(())
            },
            Instr::LoadDt(x) => {
                self.op_fx07(x);
                Ok(())
            },
            Instr::WaitKey(x) => {
                self.op_fx0a(x);
                Ok(())
            },
            Instr::SetDt(x) => {
                self.op_fx15(x);
                Ok(())
            },
            Instr::SetSt(x) => {
                self.op_fx18(x);
                Ok(())
            },
            Instr::AddI(x) => {
                self.op_fx1e(x);
                Ok(())
            },
            Instr::FontAddr(x) => {
                self.op_fx29(x);
                Ok(())
            },
            Instr::Bcd(x) => self.op_fx33(x),
            Instr::StoreRegs(x) => self.op_fx55(x),
            Instr::LoadRegs(x) => self.op_fx65(x),
        }
    }

    /// Execute one machine cycle with the random byte `rb` standing in
    /// for the random-byte source: the deterministic heart of `step`,
    /// usable directly wherever a reproducible sequence is wanted. The
    /// contract pins the new state and result to the cycle transition
    /// exactly.
    pub fn step_with(&mut self, rb: u8) -> (res: Result<(), CpuError>)
        requires
            old(self).wf(),
        ensures
            final(self).wf(),
            final(self)@ == spec_cycle(old(self)@, rb).0,
            res == spec_cycle(old(self)@, rb).1,
    {
        self.redraw = false;
        if self.keypad_waiting {
            let mut k: usize = 0;
            while k < 16
                invariant
                    k <= 16,
                    old(self).wf(),
                    old(self)@.waiting,
                    forall|j: int| 0 <= j < k ==> !self.keypad@[j],
                    self.i == old(self).i,
                    self.pc == old(self).pc,
                    self.mem == old(self).mem,
                    self.v == old(self).v,
                    self.stack == old(self).stack,
                    self.sp == old(self).sp,
                    self.dt == old(self).dt,
                    self.st == old(self).st,
                    self.display == old(self).display,
                    self.redraw == false,
                    self.keypad == old(self).keypad,
                    self.keypad_waiting == old(self).keypad_waiting,
                    self.keypad_register == old(self).keypad_register,
                decreases 16 - k,
            {
                if self.keypad[k] {
                    self.keypad_waiting = false;
                    self.v[self.keypad_register] = k as u8;
                    proof {
                        lemma_first_pressed_found(old(self)@.keypad, k as int);
                        assert(self@ =~= spec_cycle(old(self)@, rb).0);
                    }
                    return Ok(());
                }
                k += 1;
            }
            proof {
                lemma_first_pressed_none(old(self)@.keypad);
                assert(self@ =~= spec_cycle(old(self)@, rb).0);
            }
            Ok(())
        } else {
            if self.dt > 0 {
                self.dt = self.dt - 1;
            }
            if self.st > 0 {
                self.st = self.st - 1;
            }
            if self.pc >= 4095 {
                proof {
                    assert(self@ =~= spec_cycle(old(self)@, rb).0);
                }
                return Err(CpuError::IllegalOpcode);
            }
            let op = self.opcode();
            match decode(op) {
                Some(ins) => {
                    let res = self.exec(ins, rb);
                    res
                },
                None => {
                    proof {
                        assert(self@ =~= spec_cycle(old(self)@, rb).0);
                    }
                    Err(CpuError::IllegalOpcode)
                },
            }
        }
    }

    /// Execute one machine cycle, drawing this cycle's byte from the
    /// random-byte source. Whatever byte was drawn, state and result are
    /// one cycle's transition for some byte; every instruction except
    /// the random one ignores it.
    pub fn step(&mut self) -> (res: Result<(), CpuError>)
        requires
            old(self).wf(),
        ensures
            final(self).wf(),
            exists|rb: u8| #[trigger] cycle_outcome(old(self)@, rb, final(self)@, res),
    {
        let rb = random_byte();
        let res = self.step_with(rb);
        proof {
            assert(cycle_outcome(old(self)@, rb, self@, res));
        }
        res
    }
}

/// Relies on rand::random: one byte drawn from the thread-local
/// generator. Nothing is promised of its value.
#[verifier::external_body]
fn random_byte() -> u8 {
    rand::random::<u8>()
}

} // verus!
