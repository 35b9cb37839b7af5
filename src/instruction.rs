use vstd::prelude::*;

verus! {

/// One decoded operation. Register selectors are nibbles (0..=15), addresses
/// are 12-bit values, and `Math` carries the sub-operation nibble of the
/// `8xyN` family, which is checked when it runs.
#[derive(Debug, PartialEq, Eq, Structural, Clone, Copy)]
pub enum Instruction {
    /// 00E0
    ClearScreen,
    /// 00EE
    Return,
    /// 1nnn
    Jump(u16),
    /// 2nnn
    Call(u16),
    /// 3xnn
    SkipEqImm(u8, u8),
    /// 4xnn
    SkipNeImm(u8, u8),
    /// 5xy0
    SkipEqReg(u8, u8),
    /// 9xy0
    SkipNeReg(u8, u8),
    /// 6xnn
    SetImm(u8, u8),
    /// 7xnn
    AddImm(u8, u8),
    /// 8xyN
    Math(u8, u8, u8),
    /// Annn
    SetIndex(u16),
    /// Bnnn
    JumpOffset(u16),
    /// Cxnn
    Random(u8, u8),
    /// Dxyn
    Draw(u8, u8, u8),
    /// Ex9E
    SkipKey(u8),
    /// ExA1
    SkipNotKey(u8),
    /// Fx07
    GetDelay(u8),
    /// Fx15
    SetDelay(u8),
    /// Fx18
    SetSound(u8),
    /// Fx1E
    AddIndex(u8),
    /// Fx0A
    WaitKey(u8),
    /// Fx29
    FontChar(u8),
    /// Fx33
    Bcd(u8),
    /// Fx55
    StoreRegs(u8),
    /// Fx65
    LoadRegs(u8),
}

/// Nibble `k` of `op`, counting from the least significant one.
pub open spec fn nibble(op: u16, k: nat) -> u8 {
    if k == 0 {
        (op % 16) as u8
    } else if k == 1 {
        ((op / 16) % 16) as u8
    } else if k == 2 {
        ((op / 256) % 16) as u8
    } else {
        (op / 4096) as u8
    }
}

/// The bottom byte of `op`.
pub open spec fn low_byte(op: u16) -> u8 {
    (op % 256) as u8
}

/// The bottom twelve bits of `op`.
pub open spec fn address(op: u16) -> u16 {
    op % 4096
}

/// What an opcode means; `None` for a bit pattern that names no operation.
pub open spec fn decode_spec(op: u16) -> Option<Instruction> {
    let x = nibble(op, 2);
    let y = nibble(op, 1);
    let n = nibble(op, 0);
    let nn = low_byte(op);
    let nnn = address(op);
    let family = nibble(op, 3);
    if op == 0x00E0 {
        Some(Instruction::ClearScreen)
    } else if op == 0x00EE {
        Some(Instruction::Return)
    } else if family == 1 {
        Some(Instruction::Jump(nnn))
    } else if family == 2 {
        Some(Instruction::Call(nnn))
    } else if family == 3 {
        Some(Instruction::SkipEqImm(x, nn))
    } else if family == 4 {
        Some(Instruction::SkipNeImm(x, nn))
    } else if family == 5 && n == 0 {
        Some(Instruction::SkipEqReg(x, y))
    } else if family == 6 {
        Some(Instruction::SetImm(x, nn))
    } else if family == 7 {
        Some(Instruction::AddImm(x, nn))
    } else if family == 8 {
        Some(Instruction::Math(x, y, n))
    } else if family == 9 && n == 0 {
        Some(Instruction::SkipNeReg(x, y))
    } else if family == 0xA {
        Some(Instruction::SetIndex(nnn))
    } else if family == 0xB {
        Some(Instruction::JumpOffset(nnn))
    } else if family == 0xC {
        Some(Instruction::Random(x, nn))
    } else if family == 0xD {
        Some(Instruction::Draw(x, y, n))
    } else if family == 0xE && nn == 0x9E {
        Some(Instruction::SkipKey(x))
    } else if family == 0xE && nn == 0xA1 {
        Some(Instruction::SkipNotKey(x))
    } else if family == 0xF && nn == 0x07 {
        Some(Instruction::GetDelay(x))
    } else if family == 0xF && nn == 0x15 {
        Some(Instruction::SetDelay(x))
    } else if family == 0xF && nn == 0x18 {
        Some(Instruction::SetSound(x))
    } else if family == 0xF && nn == 0x1E {
        Some(Instruction::AddIndex(x))
    } else if family == 0xF && nn == 0x0A {
        Some(Instruction::WaitKey(x))
    } else if family == 0xF && nn == 0x29 {
        Some(Instruction::FontChar(x))
    } else if family == 0xF && nn == 0x33 {
        Some(Instruction::Bcd(x))
    } else if family == 0xF && nn == 0x55 {
        Some(Instruction::StoreRegs(x))
    } else if family == 0xF && nn == 0x65 {
        Some(Instruction::LoadRegs(x))
    } else {
        None
    }
}

/// Every field of a decoded instruction is in range: selectors and
/// heights below 16, addresses below 4096.
pub open spec fn fields_in_range(ins: Instruction) -> bool {
    match ins {
        Instruction::Jump(a) | Instruction::Call(a) | Instruction::SetIndex(a)
        | Instruction::JumpOffset(a) => a < 4096,
        Instruction::SkipEqImm(x, _) | Instruction::SkipNeImm(x, _) | Instruction::SetImm(x, _)
        | Instruction::AddImm(x, _) | Instruction::Random(x, _) => x < 16,
        Instruction::SkipEqReg(x, y) | Instruction::SkipNeReg(x, y) => x < 16 && y < 16,
        Instruction::Math(x, y, n) | Instruction::Draw(x, y, n) => x < 16 && y < 16 && n < 16,
        Instruction::SkipKey(x) | Instruction::SkipNotKey(x) | Instruction::GetDelay(x)
        | Instruction::SetDelay(x) | Instruction::SetSound(x) | Instruction::AddIndex(x)
        | Instruction::WaitKey(x) | Instruction::FontChar(x) | Instruction::Bcd(x)
        | Instruction::StoreRegs(x) | Instruction::LoadRegs(x) => x < 16,
        Instruction::ClearScreen | Instruction::Return => true,
    }
}

/// Classifies an opcode into the operation it names.
pub fn decode(op: u16) -> (r: Option<Instruction>)
    ensures
        r == decode_spec(op),
        r matches Some(ins) ==> fields_in_range(ins),
{
    let x = ((op / 256) % 16) as u8;
    let y = ((op / 16) % 16) as u8;
    let n = (op % 16) as u8;
    let nn = (op % 256) as u8;
    let nnn = op % 4096;
    let family = op / 4096;
    if op == 0x00E0 {
        Some(Instruction::ClearScreen)
    } else if op == 0x00EE {
        Some(Instruction::Return)
    } else if family == 1 {
        Some(Instruction::Jump(nnn))
    } else if family == 2 {
        Some(Instruction::Call(nnn))
    } else if family == 3 {
        Some(Instruction::SkipEqImm(x, nn))
    } else if family == 4 {
        Some(Instruction::SkipNeImm(x, nn))
    } else if family == 5 && n == 0 {
        Some(Instruction::SkipEqReg(x, y))
    } else if family == 6 {
        Some(Instruction::SetImm(x, nn))
    } else if family == 7 {
        Some(Instruction::AddImm(x, nn))
    } else if family == 8 {
        Some(Instruction::Math(x, y, n))
    } else if family == 9 && n == 0 {
        Some(Instruction::SkipNeReg(x, y))
    } else if family == 0xA {
        Some(Instruction::SetIndex(nnn))
    } else if family == 0xB {
        Some(Instruction::JumpOffset(nnn))
    } else if family == 0xC {
        Some(Instruction::Random(x, nn))
    } else if family == 0xD {
        Some(Instruction::Draw(x, y, n))
    } else if family == 0xE && nn == 0x9E {
        Some(Instruction::SkipKey(x))
    } else if family == 0xE && nn == 0xA1 {
        Some(Instruction::SkipNotKey(x))
    } else if family == 0xF && nn == 0x07 {
        Some(Instruction::GetDelay(x))
    } else if family == 0xF && nn == 0x15 {
        Some(Instruction::SetDelay(x))
    } else if family == 0xF && nn == 0x18 {
        Some(Instruction::SetSound(x))
    } else if family == 0xF && nn == 0x1E {
        Some(Instruction::AddIndex(x))
    } else if family == 0xF && nn == 0x0A {
        Some(Instruction::WaitKey(x))
    } else if family == 0xF && nn == 0x29 {
        Some(Instruction::FontChar(x))
    } else if family == 0xF && nn == 0x33 {
        Some(Instruction::Bcd(x))
    } else if family == 0xF && nn == 0x55 {
        Some(Instruction::StoreRegs(x))
    } else if family == 0xF && nn == 0x65 {
        Some(Instruction::LoadRegs(x))
    } else {
        None
    }
}

} // verus!
