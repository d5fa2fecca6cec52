use crate::isa::{spec_decode, CpuError, Instr};
use vstd::arithmetic::div_mod::{
    lemma_add_mod_noop_right, lemma_fundamental_div_mod, lemma_fundamental_div_mod_converse_div,
    lemma_fundamental_div_mod_converse_mod, lemma_mod_multiples_vanish, lemma_small_mod,
};
use vstd::prelude::*;

verus! {

broadcast use vstd::arithmetic::div_mod::lemma_mod_bound;

/// The mathematical model of the whole machine: 4096 bytes of memory, 16
/// 8-bit registers, the address register, the program counter, a 16-slot
/// call stack with its depth, the two countdown timers, the 64x32 one-bit
/// framebuffer (stored row-major, pixel (col, row) at index `row * 64 +
/// col`), the per-cycle "changed" flag, the 16 key states, and the
/// blocked-on-input mode with its latched target register.
#[verifier::ext_equal]
pub ghost struct Chip8 {
    pub i: int,
    pub pc: int,
    pub mem: Seq<u8>,
    pub v: Seq<u8>,
    pub stack: Seq<u16>,
    pub sp: int,
    pub dt: int,
    pub st: int,
    pub display: Seq<u8>,
    pub redraw: bool,
    pub keypad: Seq<bool>,
    pub waiting: bool,
    pub wait_reg: int,
}

impl Chip8 {
    /// Well-formedness of a machine state. The program counter is bounded
    /// by 4350 = 0xFFF + 0xFF, the largest target the jump-with-offset
    /// instruction can produce; stack slots hold return addresses, which
    /// are at most 4094 + 2; every pixel is a single bit.
    pub open spec fn wf(self) -> bool {
        &&& self.mem.len() == 4096
        &&& self.v.len() == 16
        &&& self.stack.len() == 16
        &&& self.display.len() == 2048
        &&& self.keypad.len() == 16
        &&& 0 <= self.sp <= 16
        &&& 0 <= self.pc <= 4350
        &&& 0 <= self.i < 0x10000
        &&& 0 <= self.dt < 256
        &&& 0 <= self.st < 256
        &&& 0 <= self.wait_reg < 16
        &&& forall|p: int| 0 <= p < 2048 ==> self.display[p] <= 1
        &&& forall|k: int| 0 <= k < 16 ==> self.stack[k] <= 4096
    }
}

/// The built-in font: 16 glyphs of 5 bytes each, one per hexadecimal
/// digit, preloaded at the very start of memory.
pub open spec fn font() -> Seq<u8> {
    seq![
        0xF0u8, 0x90, 0x90, 0x90, 0xF0, // 0
        0x20, 0x60, 0x20, 0x20, 0x70, // 1
        0xF0, 0x10, 0xF0, 0x80, 0xF0, // 2
        0xF0, 0x10, 0xF0, 0x10, 0xF0, // 3
        0x90, 0x90, 0xF0, 0x10, 0x10, // 4
        0xF0, 0x80, 0xF0, 0x10, 0xF0, // 5
        0xF0, 0x80, 0xF0, 0x90, 0xF0, // 6
        0xF0, 0x10, 0x20, 0x40, 0x40, // 7
        0xF0, 0x90, 0xF0, 0x90, 0xF0, // 8
        0xF0, 0x90, 0xF0, 0x10, 0xF0, // 9
        0xF0, 0x90, 0xF0, 0x90, 0x90, // A
        0xE0, 0x90, 0xE0, 0x90, 0xE0, // B
        0xF0, 0x80, 0x80, 0x80, 0xF0, // C
        0xE0, 0x90, 0x90, 0x90, 0xE0, // D
        0xF0, 0x80, 0xF0, 0x80, 0xF0, // E
        0xF0, 0x80, 0xF0, 0x80, 0x80, // F
    ]
}

/// An all-dark framebuffer.
pub open spec fn blank_display() -> Seq<u8> {
    Seq::new(2048, |p: int| 0u8)
}

/// Memory as construction leaves it: the font at the start, zero elsewhere.
pub open spec fn init_mem() -> Seq<u8> {
    Seq::new(4096, |a: int| if a < 80 { font()[a] } else { 0u8 })
}

/// The machine as constructed: everything zeroed, the font copied in, the
/// program counter at the program start address 0x200.
pub open spec fn init_state() -> Chip8 {
    Chip8 {
        i: 0,
        pc: 0x200,
        mem: init_mem(),
        v: Seq::new(16, |k: int| 0u8),
        stack: Seq::new(16, |k: int| 0u16),
        sp: 0,
        dt: 0,
        st: 0,
        display: blank_display(),
        redraw: false,
        keypad: Seq::new(16, |k: int| false),
        waiting: false,
        wait_reg: 0,
    }
}

/// Memory after a ROM image is copied in at the program start address:
/// each image byte at its offset from 0x200, every other byte untouched.
pub open spec fn load_mem(mem: Seq<u8>, rom: Seq<u8>) -> Seq<u8> {
    Seq::new(
        4096,
        |a: int|
            if 0x200 <= a < 0x200 + rom.len() {
                rom[a - 0x200]
            } else {
                mem[a]
            },
    )
}

/// The lowest pressed keypad slot at or above `j`, if any.
pub open spec fn first_pressed_from(kp: Seq<bool>, j: int) -> Option<int>
    decreases 16 - j,
{
    if j < 0 || j >= 16 {
        None
    } else if kp[j] {
        Some(j)
    } else {
        first_pressed_from(kp, j + 1)
    }
}

/// The lowest pressed keypad slot, if any: the slot the blocking-input
/// instruction latches when several keys are down at once.
pub open spec fn first_pressed(kp: Seq<bool>) -> Option<int> {
    first_pressed_from(kp, 0)
}

/// The big-endian 16-bit instruction word at the program counter.
pub open spec fn spec_fetch(s: Chip8) -> u16 {
    (s.mem[s.pc] * 256 + s.mem[s.pc + 1]) as u16
}

/// Bit `k` of a sprite byte, counted from the most significant: bit 0 is
/// the leftmost pixel of the row.
pub open spec fn bit_at(b: u8, k: u8) -> u8 {
    (b >> ((7 - k) as u8)) & 1
}

/// Which sprite row lands on framebuffer index `p`: each axis wraps
/// independently, so row `r` of the sprite covers display row
/// `(vy + r) % 32`.
pub open spec fn sprite_row(p: int, vy: u8) -> int {
    (p / 64 - vy) % 32
}

/// Which bit of a sprite row lands on framebuffer index `p`: bit `b`
/// covers display column `(vx + b) % 64`.
pub open spec fn sprite_col(p: int, vx: u8) -> int {
    (p % 64 - vx) % 64
}

/// The sprite bit that a draw at `(vx, vy)` from address `i` lays over
/// framebuffer index `p` (meaningful only where the sprite covers `p`).
pub open spec fn sprite_bit(mem: Seq<u8>, i: int, vx: u8, vy: u8, p: int) -> u8 {
    bit_at(mem[i + sprite_row(p, vy)], sprite_col(p, vx) as u8)
}

/// Whether a draw covers framebuffer index `p`, restricted to the first
/// `rows` full sprite rows plus the first `bits` bits of row `rows`. A
/// whole draw of `n` rows is `(rows, bits) = (n, 0)`. Since a sprite has
/// at most 15 rows of 8 bits on a 32x64 grid, no pixel is covered twice.
pub open spec fn draw_hit_upto(p: int, vx: u8, vy: u8, rows: int, bits: int) -> bool {
    sprite_col(p, vx) < 8 && (sprite_row(p, vy) < rows || (sprite_row(p, vy) == rows
        && sprite_col(p, vx) < bits))
}

/// The framebuffer after XOR-drawing the covered prefix of the sprite.
pub open spec fn draw_display_upto(
    d: Seq<u8>,
    mem: Seq<u8>,
    i: int,
    vx: u8,
    vy: u8,
    rows: int,
    bits: int,
) -> Seq<u8> {
    Seq::new(
        2048,
        |p: int|
            if draw_hit_upto(p, vx, vy, rows, bits) {
                d[p] ^ sprite_bit(mem, i, vx, vy, p)
            } else {
                d[p]
            },
    )
}

/// Whether the covered prefix of the sprite collides: some covered pixel
/// is already lit where the sprite also sets a bit.
pub open spec fn draw_collides_upto(
    d: Seq<u8>,
    mem: Seq<u8>,
    i: int,
    vx: u8,
    vy: u8,
    rows: int,
    bits: int,
) -> bool {
    exists|p: int|
        0 <= p < 2048 && #[trigger] draw_hit_upto(p, vx, vy, rows, bits) && d[p] == 1
            && sprite_bit(mem, i, vx, vy, p) == 1
}

/// The framebuffer after XOR-drawing a whole `n`-row sprite at `(vx, vy)`
/// from address `i`.
pub open spec fn draw_display(d: Seq<u8>, mem: Seq<u8>, i: int, vx: u8, vy: u8, n: int) -> Seq<
    u8,
> {
    draw_display_upto(d, mem, i, vx, vy, n, 0)
}

/// Whether a whole `n`-row sprite draw at `(vx, vy)` collides.
pub open spec fn draw_collides(d: Seq<u8>, mem: Seq<u8>, i: int, vx: u8, vy: u8, n: int) -> bool {
    draw_collides_upto(d, mem, i, vx, vy, n, 0)
}

/// What one decoded instruction does to the machine. `s` is the state
/// after the per-cycle timer decrement; `rb` is the byte the random-byte
/// source supplied for this cycle (read only by the random instruction).
/// Operands are read from the pre-state and the listed updates applied in
/// order, so an instruction that names the flag register as its operand
/// still computes from the operand's pre-instruction value. On an error
/// the machine is returned unchanged.
pub open spec fn spec_exec(s: Chip8, ins: Instr, rb: u8) -> (Chip8, Result<(), CpuError>) {
    match ins {
        Instr::Cls => (
            Chip8 { display: blank_display(), redraw: true, pc: s.pc + 2, ..s },
            Ok(()),
        ),
        Instr::Ret => {
            if s.sp <= 0 {
                (s, Err(CpuError::StackUnderflow))
            } else {
                (Chip8 { pc: s.stack[s.sp - 1] as int, sp: s.sp - 1, ..s }, Ok(()))
            }
        },
        Instr::Jump(nnn) => (Chip8 { pc: nnn as int, ..s }, Ok(())),
        Instr::Call(nnn) => {
            if s.sp >= 16 {
                (s, Err(CpuError::StackOverflow))
            } else {
                (
                    Chip8 {
                        stack: s.stack.update(s.sp, (s.pc + 2) as u16),
                        sp: s.sp + 1,
                        pc: nnn as int,
                        ..s
                    },
                    Ok(()),
                )
            }
        },
        Instr::SkipEqImm(x, nn) => (
            Chip8 { pc: s.pc + if s.v[x as int] == nn { 4int } else { 2int }, ..s },
            Ok(()),
        ),
        Instr::SkipNeImm(x, nn) => (
            Chip8 { pc: s.pc + if s.v[x as int] != nn { 4int } else { 2int }, ..s },
            Ok(()),
        ),
        Instr::SkipEqReg(x, y) => (
            Chip8 { pc: s.pc + if s.v[x as int] == s.v[y as int] { 4int } else { 2int }, ..s },
            Ok(()),
        ),
        Instr::LoadImm(x, nn) => (
            Chip8 { v: s.v.update(x as int, nn), pc: s.pc + 2, ..s },
            Ok(()),
        ),
        Instr::AddImm(x, nn) => (
            Chip8 {
                v: s.v.update(x as int, ((s.v[x as int] + nn) % 256) as u8),
                pc: s.pc + 2,
                ..s
            },
            Ok(()),
        ),
        Instr::Move(x, y) => (
            Chip8 { v: s.v.update(x as int, s.v[y as int]), pc: s.pc + 2, ..s },
            Ok(()),
        ),
        Instr::Or(x, y) => (
            Chip8 { v: s.v.update(x as int, s.v[x as int] | s.v[y as int]), pc: s.pc + 2, ..s },
            Ok(()),
        ),
        Instr::And(x, y) => (
            Chip8 { v: s.v.update(x as int, s.v[x as int] & s.v[y as int]), pc: s.pc + 2, ..s },
            Ok(()),
        ),
        Instr::Xor(x, y) => (
            Chip8 { v: s.v.update(x as int, s.v[x as int] ^ s.v[y as int]), pc: s.pc + 2, ..s },
            Ok(()),
        ),
        Instr::Add(x, y) => {
            let sum = s.v[x as int] + s.v[y as int];
            (
                Chip8 {
                    v: s.v.update(x as int, (sum % 256) as u8).update(
                        15,
                        if sum > 255 { 1u8 } else { 0u8 },
                    ),
                    pc: s.pc + 2,
                    ..s
                },
                Ok(()),
            )
        },
        Instr::Sub(x, y) => {
            let a = s.v[x as int];
            let b = s.v[y as int];
            (
                Chip8 {
                    v: s.v.update(15, if a > b { 1u8 } else { 0u8 }).update(
                        x as int,
                        ((a - b) % 256) as u8,
                    ),
                    pc: s.pc + 2,
                    ..s
                },
                Ok(()),
            )
        },
        Instr::Shr(x) => {
            let a = s.v[x as int];
            (
                Chip8 {
                    v: s.v.update(15, (a % 2) as u8).update(x as int, (a / 2) as u8),
                    pc: s.pc + 2,
                    ..s
                },
                Ok(()),
            )
        },
        Instr::SubN(x, y) => {
            let a = s.v[x as int];
            let b = s.v[y as int];
            (
                Chip8 {
                    v: s.v.update(15, if b > a { 1u8 } else { 0u8 }).update(
                        x as int,
                        ((b - a) % 256) as u8,
                    ),
                    pc: s.pc + 2,
                    ..s
                },
                Ok(()),
            )
        },
        Instr::Shl(x) => {
            let a = s.v[x as int];
            (
                Chip8 {
                    v: s.v.update(15, (a / 128) as u8).update(x as int, ((a * 2) % 256) as u8),
                    pc: s.pc + 2,
                    ..s
                },
                Ok(()),
            )
        },
        Instr::SkipNeReg(x, y) => (
            Chip8 { pc: s.pc + if s.v[x as int] != s.v[y as int] { 4int } else { 2int }, ..s },
            Ok(()),
        ),
        Instr::LoadI(nnn) => (Chip8 { i: nnn as int, pc: s.pc + 2, ..s }, Ok(())),
        Instr::JumpV0(nnn) => (Chip8 { pc: nnn + s.v[0], ..s }, Ok(())),
        Instr::Rand(x, nn) => (
            Chip8 { v: s.v.update(x as int, rb & nn), pc: s.pc + 2, ..s },
            Ok(()),
        ),
        Instr::Draw(x, y, n) => {
            let vx = s.v[x as int];
            let vy = s.v[y as int];
            if n > 0 && s.i + n > 4096 {
                (s, Err(CpuError::IllegalOpcode))
            } else {
                (
                    Chip8 {
                        display: draw_display(s.display, s.mem, s.i, vx, vy, n as int),
                        v: s.v.update(
                            15,
                            if draw_collides(s.display, s.mem, s.i, vx, vy, n as int) {
                                1u8
                            } else {
                                0u8
                            },
                        ),
                        redraw: true,
                        pc: s.pc + 2,
                        ..s
                    },
                    Ok(()),
                )
            }
        },
        Instr::SkipKey(x) => (
            Chip8 {
                pc: s.pc + if s.keypad[s.v[x as int] as int % 16] { 4int } else { 2int },
                ..s
            },
            Ok(()),
        ),
        Instr::SkipNoKey(x) => (
            Chip8 {
                pc: s.pc + if !s.keypad[s.v[x as int] as int % 16] { 4int } else { 2int },
                ..s
            },
            Ok(()),
        ),
        Instr::LoadDt(x) => (
            Chip8 { v: s.v.update(x as int, s.dt as u8), pc: s.pc + 2, ..s },
            Ok(()),
        ),
        Instr::WaitKey(x) => (
            Chip8 { waiting: true, wait_reg: x as int, pc: s.pc + 2, ..s },
            Ok(()),
        ),
        Instr::SetDt(x) => (Chip8 { dt: s.v[x as int] as int, pc: s.pc + 2, ..s }, Ok(())),
        Instr::SetSt(x) => (Chip8 { st: s.v[x as int] as int, pc: s.pc + 2, ..s }, Ok(())),
        Instr::AddI(x) => {
            let ni = (s.i + s.v[x as int]) % 0x10000;
            (
                Chip8 {
                    i: ni,
                    v: s.v.update(15, if ni > 0x0F00 { 1u8 } else { 0u8 }),
                    pc: s.pc + 2,
                    ..s
                },
                Ok(()),
            )
        },
        Instr::FontAddr(x) => (
            Chip8 { i: s.v[x as int] * 5, pc: s.pc + 2, ..s },
            Ok(()),
        ),
        Instr::Bcd(x) => {
            if s.i + 2 < 4096 {
                let a = s.v[x as int] as int;
                (
                    Chip8 {
                        mem: s.mem.update(s.i, (a / 100) as u8).update(
                            s.i + 1,
                            ((a % 100) / 10) as u8,
                        ).update(s.i + 2, (a % 10) as u8),
                        pc: s.pc + 2,
                        ..s
                    },
                    Ok(()),
                )
            } else {
                (s, Err(CpuError::IllegalOpcode))
            }
        },
        Instr::StoreRegs(x) => {
            if s.i + x < 4096 {
                (
                    Chip8 {
                        mem: Seq::new(
                            4096,
                            |a: int|
                                if s.i <= a && a <= s.i + x {
                                    s.v[a - s.i]
                                } else {
                                    s.mem[a]
                                },
                        ),
                        pc: s.pc + 2,
                        ..s
                    },
                    Ok(()),
                )
            } else {
                (s, Err(CpuError::IllegalOpcode))
            }
        },
        Instr::LoadRegs(x) => {
            if s.i + x < 4096 {
                (
                    Chip8 {
                        v: Seq::new(
                            16,
                            |j: int| if j <= x { s.mem[s.i + j] } else { s.v[j] },
                        ),
                        pc: s.pc + 2,
                        ..s
                    },
                    Ok(()),
                )
            } else {
                (s, Err(CpuError::IllegalOpcode))
            }
        },
    }
}

/// Scanning finds key `k` exactly when `k` is pressed and no lower slot is.
pub proof fn lemma_first_pressed_found(kp: Seq<bool>, k: int)
    requires
        0 <= k < 16,
        kp[k],
        forall|j: int| 0 <= j < k ==> !kp[j],
    ensures
        first_pressed(kp) == Some(k),
{
    lemma_first_pressed_from_found(kp, 0, k);
}

proof fn lemma_first_pressed_from_found(kp: Seq<bool>, j: int, k: int)
    requires
        0 <= j <= k < 16,
        kp[k],
        forall|t: int| j <= t < k ==> !kp[t],
    ensures
        first_pressed_from(kp, j) == Some(k),
    decreases k - j,
{
    if j < k {
        lemma_first_pressed_from_found(kp, j + 1, k);
    }
}

/// Scanning finds nothing exactly when no key is pressed.
pub proof fn lemma_first_pressed_none(kp: Seq<bool>)
    requires
        forall|j: int| 0 <= j < 16 ==> !kp[j],
    ensures
        first_pressed(kp) == None::<int>,
{
    lemma_first_pressed_from_none(kp, 0);
}

proof fn lemma_first_pressed_from_none(kp: Seq<bool>, j: int)
    requires
        0 <= j <= 16,
        forall|t: int| j <= t < 16 ==> !kp[t],
    ensures
        first_pressed_from(kp, j) == None::<int>,
    decreases 16 - j,
{
    if j < 16 {
        lemma_first_pressed_from_none(kp, j + 1);
    }
}

/// Wrapping an offset below `w` around `base` and reading it back off the
/// wrapped position returns the offset.
pub proof fn lemma_wrap_offset(base: int, off: int, w: int)
    requires
        0 <= base,
        0 <= off < w,
    ensures
        ((base + off) % w - base) % w == off,
{
    lemma_fundamental_div_mod(base + off, w);
    let q = (base + off) / w;
    assert(w * (-q) == -(w * q)) by (nonlinear_arith);
    assert((base + off) % w - base == w * (-q) + off);
    lemma_mod_multiples_vanish(-q, off, w);
    lemma_small_mod(off as nat, w as nat);
}

/// The converse: a position below `w` whose offset from `base` reads as
/// `off` is the wrapped position of `off` around `base`.
pub proof fn lemma_wrap_offset_inv(base: int, a: int, off: int, w: int)
    requires
        0 <= base,
        0 <= a < w,
        0 <= off < w,
        (a - base) % w == off,
    ensures
        a == (base + off) % w,
{
    lemma_add_mod_noop_right(base, a - base, w);
    lemma_small_mod(a as nat, w as nat);
}

/// A single extracted sprite bit is a single bit.
pub proof fn lemma_bit_at_le(b: u8, k: u8)
    by (bit_vector)
    requires
        k < 8,
    ensures
        bit_at(b, k) <= 1,
{
}

/// Folding one more collision test into the flag register: the or-of-and
/// step keeps the flag a single bit and sets it exactly when it was set
/// or the new test fires.
pub proof fn lemma_flag_bit(a: u8, b: u8, c: u8)
    by (bit_vector)
    requires
        a <= 1,
        b <= 1,
        c <= 1,
    ensures
        (a | (b & c)) <= 1,
        ((a | (b & c)) == 1) <==> (a == 1 || (b == 1 && c == 1)),
{
}

/// XOR of single bits stays a single bit, and XOR-ing the same bit twice
/// restores the original pixel.
pub proof fn lemma_xor_bits(a: u8, b: u8)
    by (bit_vector)
    requires
        a <= 1,
        b <= 1,
    ensures
        (a ^ b) <= 1,
        (a ^ b) ^ b == a,
        ((a ^ b) == 1) <==> a != b,
{
}

/// A draw of nothing: no pixel is covered, nothing collides.
pub proof fn lemma_draw_empty(d: Seq<u8>, mem: Seq<u8>, i: int, vx: u8, vy: u8)
    requires
        d.len() == 2048,
    ensures
        draw_display_upto(d, mem, i, vx, vy, 0, 0) == d,
        !draw_collides_upto(d, mem, i, vx, vy, 0, 0),
{
    assert forall|p: int| 0 <= p < 2048 implies !draw_hit_upto(p, vx, vy, 0, 0) by {
        assert(sprite_row(p, vy) >= 0);
        assert(sprite_col(p, vx) >= 0);
    }
    assert(draw_display_upto(d, mem, i, vx, vy, 0, 0) =~= d);
    if draw_collides_upto(d, mem, i, vx, vy, 0, 0) {
        let q = choose|q: int|
            0 <= q < 2048 && #[trigger] draw_hit_upto(q, vx, vy, 0, 0) && d[q] == 1 && sprite_bit(
                mem,
                i,
                vx,
                vy,
                q,
            ) == 1;
        assert(false);
    }
}

/// The unique framebuffer index covered by sprite row `r`, bit `b`.
proof fn lemma_cover_unique(vx: u8, vy: u8, r: int, b: int, q: int)
    requires
        0 <= r < 32,
        0 <= b < 64,
        0 <= q < 2048,
        sprite_row(q, vy) == r,
        sprite_col(q, vx) == b,
    ensures
        q == ((vy + r) % 32) * 64 + ((vx + b) % 64),
{
    lemma_fundamental_div_mod(q, 64);
    assert(0 <= q / 64 < 32);
    lemma_wrap_offset_inv(vy as int, q / 64, r, 32);
    lemma_wrap_offset_inv(vx as int, q % 64, b, 64);
}

/// One bit of drawing: toggling the covered pixel and or-ing its
/// collision test extends the covered prefix by one bit. Names the
/// covered index `p` and ties the before/after framebuffers and
/// collision conditions together.
pub proof fn lemma_draw_bit_step(
    d: Seq<u8>,
    mem: Seq<u8>,
    i: int,
    vx: u8,
    vy: u8,
    n: u8,
    r: int,
    b: int,
)
    requires
        d.len() == 2048,
        mem.len() == 4096,
        0 <= r < n,
        n < 16,
        0 <= b < 8,
        0 <= i,
        i + n <= 4096,
    ensures
        ({
            let p = ((vy + r) % 32) * 64 + ((vx + b) % 64);
            let color = bit_at(mem[i + r], b as u8);
            &&& 0 <= p < 2048
            &&& sprite_row(p, vy) == r
            &&& sprite_col(p, vx) == b
            &&& sprite_bit(mem, i, vx, vy, p) == color
            &&& !draw_hit_upto(p, vx, vy, r, b)
            &&& draw_display_upto(d, mem, i, vx, vy, r, b)[p] == d[p]
            &&& draw_display_upto(d, mem, i, vx, vy, r, b + 1) == draw_display_upto(
                d,
                mem,
                i,
                vx,
                vy,
                r,
                b,
            ).update(p, d[p] ^ color)
            &&& (draw_collides_upto(d, mem, i, vx, vy, r, b + 1) <==> (draw_collides_upto(
                d,
                mem,
                i,
                vx,
                vy,
                r,
                b,
            ) || (d[p] == 1 && color == 1)))
        }),
{
    let p = ((vy + r) % 32) * 64 + ((vx + b) % 64);
    let color = bit_at(mem[i + r], b as u8);
    let py = (vy + r) % 32;
    let px = (vx + b) % 64;
    assert(0 <= py < 32);
    assert(0 <= px < 64);
    assert(0 <= p < 2048);
    lemma_fundamental_div_mod_converse_div(p, 64, py, px);
    lemma_fundamental_div_mod_converse_mod(p, 64, py, px);
    lemma_wrap_offset(vy as int, r, 32);
    lemma_wrap_offset(vx as int, b, 64);
    assert(sprite_row(p, vy) == r);
    assert(sprite_col(p, vx) == b);
    assert forall|q: int|
        0 <= q < 2048 && q != p implies !(sprite_row(q, vy) == r && sprite_col(q, vx)
        == b) by {
        if sprite_row(q, vy) == r && sprite_col(q, vx) == b {
            lemma_cover_unique(vx, vy, r, b, q);
        }
    }
    assert(draw_display_upto(d, mem, i, vx, vy, r, b + 1) =~= draw_display_upto(
        d,
        mem,
        i,
        vx,
        vy,
        r,
        b,
    ).update(p, d[p] ^ color));
    if draw_collides_upto(d, mem, i, vx, vy, r, b + 1) {
        let q = choose|q: int|
            0 <= q < 2048 && #[trigger] draw_hit_upto(q, vx, vy, r, b + 1) && d[q] == 1
                && sprite_bit(mem, i, vx, vy, q) == 1;
        if q != p {
            assert(draw_hit_upto(q, vx, vy, r, b));
            assert(draw_collides_upto(d, mem, i, vx, vy, r, b));
        }
    }
    if draw_collides_upto(d, mem, i, vx, vy, r, b) {
        let q = choose|q: int|
            0 <= q < 2048 && #[trigger] draw_hit_upto(q, vx, vy, r, b) && d[q] == 1 && sprite_bit(
                mem,
                i,
                vx,
                vy,
                q,
            ) == 1;
        assert(draw_hit_upto(q, vx, vy, r, b + 1));
        assert(draw_collides_upto(d, mem, i, vx, vy, r, b + 1));
    }
    if d[p] == 1 && color == 1 {
        assert(draw_hit_upto(p, vx, vy, r, b + 1));
        assert(draw_collides_upto(d, mem, i, vx, vy, r, b + 1));
    }
}

/// Finishing a sprite row: the prefix of `r` full rows plus all 8 bits of
/// row `r` covers the same pixels as `r + 1` full rows.
pub proof fn lemma_draw_row_step(d: Seq<u8>, mem: Seq<u8>, i: int, vx: u8, vy: u8, r: int)
    requires
        d.len() == 2048,
        0 <= r,
    ensures
        draw_display_upto(d, mem, i, vx, vy, r, 8) == draw_display_upto(
            d,
            mem,
            i,
            vx,
            vy,
            r + 1,
            0,
        ),
        draw_collides_upto(d, mem, i, vx, vy, r, 8) == draw_collides_upto(
            d,
            mem,
            i,
            vx,
            vy,
            r + 1,
            0,
        ),
{
    assert forall|q: int| 0 <= q < 2048 implies (draw_hit_upto(q, vx, vy, r, 8) == draw_hit_upto(
        q,
        vx,
        vy,
        r + 1,
        0,
    )) by {
        assert(sprite_col(q, vx) >= 0);
    }
    assert(draw_display_upto(d, mem, i, vx, vy, r, 8) =~= draw_display_upto(
        d,
        mem,
        i,
        vx,
        vy,
        r + 1,
        0,
    ));
    if draw_collides_upto(d, mem, i, vx, vy, r, 8) {
        let q = choose|q: int|
            0 <= q < 2048 && #[trigger] draw_hit_upto(q, vx, vy, r, 8) && d[q] == 1 && sprite_bit(
                mem,
                i,
                vx,
                vy,
                q,
            ) == 1;
        assert(draw_hit_upto(q, vx, vy, r + 1, 0));
        assert(draw_collides_upto(d, mem, i, vx, vy, r + 1, 0));
    }
    if draw_collides_upto(d, mem, i, vx, vy, r + 1, 0) {
        let q = choose|q: int|
            0 <= q < 2048 && #[trigger] draw_hit_upto(q, vx, vy, r + 1, 0) && d[q] == 1
                && sprite_bit(mem, i, vx, vy, q) == 1;
        assert(draw_hit_upto(q, vx, vy, r, 8));
        assert(draw_collides_upto(d, mem, i, vx, vy, r, 8));
    }
}

/// One whole machine cycle. The "changed" flag from the previous cycle is
/// cleared first. In the blocked-on-input mode the cycle only scans the
/// keypad: on the lowest pressed slot it latches that index into the
/// target register and leaves the mode; with no key down it changes
/// nothing, and in either case no timer decrements and nothing is
/// fetched. Otherwise both timers tick down toward 0, the word at the
/// program counter is fetched, decoded and executed; a fetch that would
/// read past the end of memory, or a word that decodes to nothing, is the
/// `IllegalOpcode` condition.
pub open spec fn spec_cycle(s: Chip8, rb: u8) -> (Chip8, Result<(), CpuError>) {
    if s.waiting {
        let s0 = Chip8 { redraw: false, ..s };
        (
            match first_pressed(s.keypad) {
                Some(k) => Chip8 { v: s0.v.update(s0.wait_reg, k as u8), waiting: false, ..s0 },
                None => s0,
            },
            Ok(()),
        )
    } else {
        let s1 = Chip8 {
            redraw: false,
            dt: if s.dt > 0 { s.dt - 1 } else { 0 },
            st: if s.st > 0 { s.st - 1 } else { 0 },
            ..s
        };
        if s.pc + 1 < 4096 {
            match spec_decode(spec_fetch(s)) {
                Some(ins) => spec_exec(s1, ins, rb),
                None => (s1, Err(CpuError::IllegalOpcode)),
            }
        } else {
            (s1, Err(CpuError::IllegalOpcode))
        }
    }
}

/// The relation one executed cycle satisfies, for the random byte `rb`
/// the cycle's random-byte source happened to supply: `s2` and `res` are
/// the state and result of the cycle from `s`.
pub open spec fn cycle_outcome(s: Chip8, rb: u8, s2: Chip8, res: Result<(), CpuError>) -> bool {
    s2 == spec_cycle(s, rb).0 && res == spec_cycle(s, rb).1
}

} // verus!
