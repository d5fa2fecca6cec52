use vstd::prelude::*;

verus! {

/// The conditions a malformed or adversarial program image can raise.
/// They are reported as results, never as panics: executing arbitrary ROM
/// bytes is the interpreter's normal operating mode.
///
/// `IllegalOpcode` covers a fetched word that matches none of the defined
/// instruction patterns, and also a cycle whose fetch or memory operands
/// would fall outside the 4096-byte address space (the machine is left as
/// it stood after the per-cycle timer decrement in that case).
#[derive(Clone, Copy, Debug, PartialEq, Eq, Structural)]
pub enum CpuError {
    StackOverflow,
    StackUnderflow,
    IllegalOpcode,
    RomTooLarge,
}

/// One decoded instruction word, as a tagged variant: a 12-bit address
/// (`u16`, below 0x1000), an 8-bit immediate, a 4-bit immediate, or 4-bit
/// register indices, depending on the pattern.
#[derive(Clone, Copy, Debug, PartialEq, Eq, Structural)]
pub enum Instr {
    Cls,
    Ret,
    Jump(u16),
    Call(u16),
    SkipEqImm(u8, u8),
    SkipNeImm(u8, u8),
    SkipEqReg(u8, u8),
    LoadImm(u8, u8),
    AddImm(u8, u8),
    Move(u8, u8),
    Or(u8, u8),
    And(u8, u8),
    Xor(u8, u8),
    Add(u8, u8),
    Sub(u8, u8),
    Shr(u8),
    SubN(u8, u8),
    Shl(u8),
    SkipNeReg(u8, u8),
    LoadI(u16),
    JumpV0(u16),
    Rand(u8, u8),
    Draw(u8, u8, u8),
    SkipKey(u8),
    SkipNoKey(u8),
    LoadDt(u8),
    WaitKey(u8),
    SetDt(u8),
    SetSt(u8),
    AddI(u8),
    FontAddr(u8),
    Bcd(u8),
    StoreRegs(u8),
    LoadRegs(u8),
}

/// The field bounds that decoding guarantees: register indices and 4-bit
/// immediates are below 16, addresses below 0x1000.
pub open spec fn instr_wf(ins: Instr) -> bool {
    match ins {
        Instr::Cls => true,
        Instr::Ret => true,
        Instr::Jump(nnn) => nnn < 0x1000,
        Instr::Call(nnn) => nnn < 0x1000,
        Instr::SkipEqImm(x, _) => x < 16,
        Instr::SkipNeImm(x, _) => x < 16,
        Instr::SkipEqReg(x, y) => x < 16 && y < 16,
        Instr::LoadImm(x, _) => x < 16,
        Instr::AddImm(x, _) => x < 16,
        Instr::Move(x, y) => x < 16 && y < 16,
        Instr::Or(x, y) => x < 16 && y < 16,
        Instr::And(x, y) => x < 16 && y < 16,
        Instr::Xor(x, y) => x < 16 && y < 16,
        Instr::Add(x, y) => x < 16 && y < 16,
        Instr::Sub(x, y) => x < 16 && y < 16,
        Instr::Shr(x) => x < 16,
        Instr::SubN(x, y) => x < 16 && y < 16,
        Instr::Shl(x) => x < 16,
        Instr::SkipNeReg(x, y) => x < 16 && y < 16,
        Instr::LoadI(nnn) => nnn < 0x1000,
        Instr::JumpV0(nnn) => nnn < 0x1000,
        Instr::Rand(x, _) => x < 16,
        Instr::Draw(x, y, n) => x < 16 && y < 16 && n < 16,
        Instr::SkipKey(x) => x < 16,
        Instr::SkipNoKey(x) => x < 16,
        Instr::LoadDt(x) => x < 16,
        Instr::WaitKey(x) => x < 16,
        Instr::SetDt(x) => x < 16,
        Instr::SetSt(x) => x < 16,
        Instr::AddI(x) => x < 16,
        Instr::FontAddr(x) => x < 16,
        Instr::Bcd(x) => x < 16,
        Instr::StoreRegs(x) => x < 16,
        Instr::LoadRegs(x) => x < 16,
    }
}

/// What a 16-bit instruction word decodes to: `None` exactly on the bit
/// patterns that match no defined instruction.
pub open spec fn spec_decode(op: u16) -> Option<Instr> {
    let x = ((op / 0x100) % 0x10) as u8;
    let y = ((op / 0x10) % 0x10) as u8;
    let n = (op % 0x10) as u8;
    let nn = (op % 0x100) as u8;
    let nnn = (op % 0x1000) as u16;
    let h = op / 0x1000;
    if op == 0x00E0 {
        Some(Instr::Cls)
    } else if op == 0x00EE {
        Some(Instr::Ret)
    } else if h == 0x1 {
        Some(Instr::Jump(nnn))
    } else if h == 0x2 {
        Some(Instr::Call(nnn))
    } else if h == 0x3 {
        Some(Instr::SkipEqImm(x, nn))
    } else if h == 0x4 {
        Some(Instr::SkipNeImm(x, nn))
    } else if h == 0x5 && n == 0x0 {
        Some(Instr::SkipEqReg(x, y))
    } else if h == 0x6 {
        Some(Instr::LoadImm(x, nn))
    } else if h == 0x7 {
        Some(Instr::AddImm(x, nn))
    } else if h == 0x8 && n == 0x0 {
        Some(Instr::Move(x, y))
    } else if h == 0x8 && n == 0x1 {
        Some(Instr::Or(x, y))
    } else if h == 0x8 && n == 0x2 {
        Some(Instr::And(x, y))
    } else if h == 0x8 && n == 0x3 {
        Some(Instr::Xor(x, y))
    } else if h == 0x8 && n == 0x4 {
        Some(Instr::Add(x, y))
    } else if h == 0x8 && n == 0x5 {
        Some(Instr::Sub(x, y))
    } else if h == 0x8 && n == 0x6 {
        Some(Instr::Shr(x))
    } else if h == 0x8 && n == 0x7 {
        Some(Instr::SubN(x, y))
    } else if h == 0x8 && n == 0xE {
        Some(Instr::Shl(x))
    } else if h == 0x9 && n == 0x0 {
        Some(Instr::SkipNeReg(x, y))
    } else if h == 0xA {
        Some(Instr::LoadI(nnn))
    } else if h == 0xB {
        Some(Instr::JumpV0(nnn))
    } else if h == 0xC {
        Some(Instr::Rand(x, nn))
    } else if h == 0xD {
        Some(Instr::Draw(x, y, n))
    } else if h == 0xE && nn == 0x9E {
        Some(Instr::SkipKey(x))
    } else if h == 0xE && nn == 0xA1 {
        Some(Instr::SkipNoKey(x))
    } else if h == 0xF && nn == 0x07 {
        Some(Instr::LoadDt(x))
    } else if h == 0xF && nn == 0x0A {
        Some(Instr::WaitKey(x))
    } else if h == 0xF && nn == 0x15 {
        Some(Instr::SetDt(x))
    } else if h == 0xF && nn == 0x18 {
        Some(Instr::SetSt(x))
    } else if h == 0xF && nn == 0x1E {
        Some(Instr::AddI(x))
    } else if h == 0xF && nn == 0x29 {
        Some(Instr::FontAddr(x))
    } else if h == 0xF && nn == 0x33 {
        Some(Instr::Bcd(x))
    } else if h == 0xF && nn == 0x55 {
        Some(Instr::StoreRegs(x))
    } else if h == 0xF && nn == 0x65 {
        Some(Instr::LoadRegs(x))
    } else {
        None
    }
}

/// Decode one instruction word into its tagged variant.
pub fn decode(op: u16) -> (r: Option<Instr>)
    ensures
        r == spec_decode(op),
        (match r {
            Some(ins) => instr_wf(ins),
            None => true,
        }),
{
    let x = ((op / 0x100) % 0x10) as u8;
    let y = ((op / 0x10) % 0x10) as u8;
    let n = (op % 0x10) as u8;
    let nn = (op % 0x100) as u8;
    let nnn = op % 0x1000;
    let h = op / 0x1000;
    if op == 0x00E0 {
        Some(Instr::Cls)
    } else if op == 0x00EE {
        Some(Instr::Ret)
    } else if h == 0x1 {
        Some(Instr::Jump(nnn))
    } else if h == 0x2 {
        Some(Instr::Call(nnn))
    } else if h == 0x3 {
        Some(Instr::SkipEqImm(x, nn))
    } else if h == 0x4 {
        Some(Instr::SkipNeImm(x, nn))
    } else if h == 0x5 && n == 0x0 {
        Some(Instr::SkipEqReg(x, y))
    } else if h == 0x6 {
        Some(Instr::LoadImm(x, nn))
    } else if h == 0x7 {
        Some(Instr::AddImm(x, nn))
    } else if h == 0x8 && n == 0x0 {
        Some(Instr::Move(x, y))
    } else if h == 0x8 && n == 0x1 {
        Some(Instr::Or(x, y))
    } else if h == 0x8 && n == 0x2 {
        Some(Instr::And(x, y))
    } else if h == 0x8 && n == 0x3 {
        Some(Instr::Xor(x, y))
    } else if h == 0x8 && n == 0x4 {
        Some(Instr::Add(x, y))
    } else if h == 0x8 && n == 0x5 {
        Some(Instr::Sub(x, y))
    } else if h == 0x8 && n == 0x6 {
        Some(Instr::Shr(x))
    } else if h == 0x8 && n == 0x7 {
        Some(Instr::SubN(x, y))
    } else if h == 0x8 && n == 0xE {
        Some(Instr::Shl(x))
    } else if h == 0x9 && n == 0x0 {
        Some(Instr::SkipNeReg(x, y))
    } else if h == 0xA {
        Some(Instr::LoadI(nnn))
    } else if h == 0xB {
        Some(Instr::JumpV0(nnn))
    } else if h == 0xC {
        Some(Instr::Rand(x, nn))
    } else if h == 0xD {
        Some(Instr::Draw(x, y, n))
    } else if h == 0xE && nn == 0x9E {
        Some(Instr::SkipKey(x))
    } else if h == 0xE && nn == 0xA1 {
        Some(Instr::SkipNoKey(x))
    } else if h == 0xF && nn == 0x07 {
        Some(Instr::LoadDt(x))
    } else if h == 0xF && nn == 0x0A {
        Some(Instr::WaitKey(x))
    } else if h == 0xF && nn == 0x15 {
        Some(Instr::SetDt(x))
    } else if h == 0xF && nn == 0x18 {
        Some(Instr::SetSt(x))
    } else if h == 0xF && nn == 0x1E {
        Some(Instr::AddI(x))
    } else if h == 0xF && nn == 0x29 {
        Some(Instr::FontAddr(x))
    } else if h == 0xF && nn == 0x33 {
        Some(Instr::Bcd(x))
    } else if h == 0xF && nn == 0x55 {
        Some(Instr::StoreRegs(x))
    } else if h == 0xF && nn == 0x65 {
        Some(Instr::LoadRegs(x))
    } else {
        None
    }
}

} // verus!
