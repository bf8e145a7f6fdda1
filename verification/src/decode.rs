//! Instruction decode: a pure function from a 16-bit instruction word to an
//! operation with its operand fields. Decoding never fails; every encoding
//! that the instruction set leaves unassigned maps to [`Instr::Nop`].

use vstd::prelude::*;

verus! {

/// A decoded instruction. Operand meanings: `x` and `y` name general
/// registers (always below 16), `k` is the low byte of the word, `n` the low
/// twelve bits (an address), `rows` the low nibble of a draw word.
#[derive(Clone, Copy, PartialEq, Eq, Structural, Debug)]
pub enum Instr {
    /// Any encoding the instruction set leaves unassigned: executes as a no-op.
    Nop,
    /// `00E0`: clear the display.
    Cls,
    /// `00EE`: return from a subroutine.
    Ret,
    /// `1nnn`: jump to `n`.
    Jump { n: u16 },
    /// `2nnn`: call the subroutine at `n`.
    Call { n: u16 },
    /// `3xkk`: skip the next instruction if `v[x] == k`.
    SkipEqK { x: u8, k: u8 },
    /// `4xkk`: skip the next instruction if `v[x] != k`.
    SkipNeK { x: u8, k: u8 },
    /// `5xy0`: skip the next instruction if `v[x] == v[y]`.
    SkipEqV { x: u8, y: u8 },
    /// `6xkk`: set `v[x] = k`.
    SetK { x: u8, k: u8 },
    /// `7xkk`: set `v[x] = v[x] + k`, wrapping, no flag.
    AddK { x: u8, k: u8 },
    /// `8xy0`: set `v[x] = v[y]`.
    Copy { x: u8, y: u8 },
    /// `8xy1`: set `v[x] = v[x] | v[y]`.
    Or { x: u8, y: u8 },
    /// `8xy2`: set `v[x] = v[x] & v[y]`.
    And { x: u8, y: u8 },
    /// `8xy3`: set `v[x] = v[x] ^ v[y]`.
    Xor { x: u8, y: u8 },
    /// `8xy4`: set `v[x] = v[x] + v[y]` wrapping, `v[0xF]` = carry.
    Add { x: u8, y: u8 },
    /// `8xy5`: set `v[x] = v[x] - v[y]` wrapping, `v[0xF]` = no-borrow.
    Sub { x: u8, y: u8 },
    /// `8xy6`: set `v[0xF] = v[x] & 1`, then halve `v[x]`.
    ShiftRight { x: u8 },
    /// `8xy7`: set `v[x] = v[y] - v[x]` wrapping, `v[0xF]` = no-borrow.
    SubNeg { x: u8, y: u8 },
    /// `8xyE`: set `v[0xF]` = high bit of `v[x]`, then double `v[x]`.
    ShiftLeft { x: u8 },
    /// `9xy0`: skip the next instruction if `v[x] != v[y]`.
    SkipNeV { x: u8, y: u8 },
    /// `Annn`: set the index register to `n`.
    SetIndex { n: u16 },
    /// `Bnnn`: jump to `n + v[0]`.
    JumpPlusV0 { n: u16 },
    /// `Cxkk`: set `v[x]` to a random byte ANDed with `k`.
    Random { x: u8, k: u8 },
    /// `Dxyn`: draw the `rows`-byte sprite at `memory[i..]` at `(v[x], v[y])`.
    Draw { x: u8, y: u8, rows: u8 },
    /// `Ex9E`: skip the next instruction if key `v[x]` is pressed.
    SkipKey { x: u8 },
    /// `ExA1`: skip the next instruction if key `v[x]` is not pressed.
    SkipNoKey { x: u8 },
    /// `Fx07`: set `v[x]` to the delay timer.
    GetDelay { x: u8 },
    /// `Fx0A`: wait for a key press and store the key in `v[x]`.
    WaitKey { x: u8 },
    /// `Fx15`: set the delay timer to `v[x]`.
    SetDelay { x: u8 },
    /// `Fx18`: set the sound timer to `v[x]`.
    SetSound { x: u8 },
    /// `Fx1E`: add `v[x]` to the index register, no flag.
    AddIndex { x: u8 },
    /// `Fx29`: set the index register to the font glyph address of `v[x]`.
    FontAddr { x: u8 },
    /// `Fx33`: write the decimal digits of `v[x]` to `memory[i..i+3]`.
    StoreBcd { x: u8 },
    /// `Fx55`: copy `v[0..=x]` to `memory[i..]`.
    StoreRegs { x: u8 },
    /// `Fx65`: copy `memory[i..]` to `v[0..=x]`.
    LoadRegs { x: u8 },
}

impl Instr {
    /// Operand fields lie in the ranges the decoder guarantees: register
    /// indices below 16, addresses below 4096, row counts below 16.
    pub open spec fn wf(self) -> bool {
        match self {
            Instr::Nop => true,
            Instr::Cls => true,
            Instr::Ret => true,
            Instr::Jump { n } => n < 4096,
            Instr::Call { n } => n < 4096,
            Instr::SkipEqK { x, k } => x < 16,
            Instr::SkipNeK { x, k } => x < 16,
            Instr::SkipEqV { x, y } => x < 16 && y < 16,
            Instr::SetK { x, k } => x < 16,
            Instr::AddK { x, k } => x < 16,
            Instr::Copy { x, y } => x < 16 && y < 16,
            Instr::Or { x, y } => x < 16 && y < 16,
            Instr::And { x, y } => x < 16 && y < 16,
            Instr::Xor { x, y } => x < 16 && y < 16,
            Instr::Add { x, y } => x < 16 && y < 16,
            Instr::Sub { x, y } => x < 16 && y < 16,
            Instr::ShiftRight { x } => x < 16,
            Instr::SubNeg { x, y } => x < 16 && y < 16,
            Instr::ShiftLeft { x } => x < 16,
            Instr::SkipNeV { x, y } => x < 16 && y < 16,
            Instr::SetIndex { n } => n < 4096,
            Instr::JumpPlusV0 { n } => n < 4096,
            Instr::Random { x, k } => x < 16,
            Instr::Draw { x, y, rows } => x < 16 && y < 16 && rows < 16,
            Instr::SkipKey { x } => x < 16,
            Instr::SkipNoKey { x } => x < 16,
            Instr::GetDelay { x } => x < 16,
            Instr::WaitKey { x } => x < 16,
            Instr::SetDelay { x } => x < 16,
            Instr::SetSound { x } => x < 16,
            Instr::AddIndex { x } => x < 16,
            Instr::FontAddr { x } => x < 16,
            Instr::StoreBcd { x } => x < 16,
            Instr::StoreRegs { x } => x < 16,
            Instr::LoadRegs { x } => x < 16,
        }
    }
}

/// What [`decode`] returns for every 16-bit instruction word.
pub open spec fn decode_spec(w: u16) -> Instr {
    let op: u16 = (w >> 12) & 0xF;
    let x: u8 = ((w >> 8) & 0xF) as u8;
    let y: u8 = ((w >> 4) & 0xF) as u8;
    let z: u16 = w & 0xF;
    let k: u8 = (w & 0xFF) as u8;
    let n: u16 = w & 0xFFF;
    if w == 0x00E0 {
        Instr::Cls
    } else if w == 0x00EE {
        Instr::Ret
    } else if op == 0x1 {
        Instr::Jump { n }
    } else if op == 0x2 {
        Instr::Call { n }
    } else if op == 0x3 {
        Instr::SkipEqK { x, k }
    } else if op == 0x4 {
        Instr::SkipNeK { x, k }
    } else if op == 0x5 && z == 0 {
        Instr::SkipEqV { x, y }
    } else if op == 0x6 {
        Instr::SetK { x, k }
    } else if op == 0x7 {
        Instr::AddK { x, k }
    } else if op == 0x8 && z == 0x0 {
        Instr::Copy { x, y }
    } else if op == 0x8 && z == 0x1 {
        Instr::Or { x, y }
    } else if op == 0x8 && z == 0x2 {
        Instr::And { x, y }
    } else if op == 0x8 && z == 0x3 {
        Instr::Xor { x, y }
    } else if op == 0x8 && z == 0x4 {
        Instr::Add { x, y }
    } else if op == 0x8 && z == 0x5 {
        Instr::Sub { x, y }
    } else if op == 0x8 && z == 0x6 {
        Instr::ShiftRight { x }
    } else if op == 0x8 && z == 0x7 {
        Instr::SubNeg { x, y }
    } else if op == 0x8 && z == 0xE {
        Instr::ShiftLeft { x }
    } else if op == 0x9 && z == 0 {
        Instr::SkipNeV { x, y }
    } else if op == 0xA {
        Instr::SetIndex { n }
    } else if op == 0xB {
        Instr::JumpPlusV0 { n }
    } else if op == 0xC {
        Instr::Random { x, k }
    } else if op == 0xD {
        Instr::Draw { x, y, rows: z as u8 }
    } else if op == 0xE && k == 0x9E {
        Instr::SkipKey { x }
    } else if op == 0xE && k == 0xA1 {
        Instr::SkipNoKey { x }
    } else if op == 0xF && k == 0x07 {
        Instr::GetDelay { x }
    } else if op == 0xF && k == 0x0A {
        Instr::WaitKey { x }
    } else if op == 0xF && k == 0x15 {
        Instr::SetDelay { x }
    } else if op == 0xF && k == 0x18 {
        Instr::SetSound { x }
    } else if op == 0xF && k == 0x1E {
        Instr::AddIndex { x }
    } else if op == 0xF && k == 0x29 {
        Instr::FontAddr { x }
    } else if op == 0xF && k == 0x33 {
        Instr::StoreBcd { x }
    } else if op == 0xF && k == 0x55 {
        Instr::StoreRegs { x }
    } else if op == 0xF && k == 0x65 {
        Instr::LoadRegs { x }
    } else {
        Instr::Nop
    }
}

/// Every decoded instruction has its operand fields in range.
pub proof fn lemma_decode_wf(w: u16)
    ensures
        decode_spec(w).wf(),
{
    assert(((w >> 8) & 0xF) < 16) by (bit_vector);
    assert(((w >> 4) & 0xF) < 16) by (bit_vector);
    assert((w & 0xF) < 16) by (bit_vector);
    assert((w & 0xFFF) < 4096) by (bit_vector);
}

/// Decodes a 16-bit instruction word. Total: unassigned encodings decode to
/// [`Instr::Nop`].
pub fn decode(w: u16) -> (instr: Instr)
    ensures
        instr == decode_spec(w),
        instr.wf(),
{
    proof {
        assert(((w >> 8) & 0xF) < 16) by (bit_vector);
        assert(((w >> 4) & 0xF) < 16) by (bit_vector);
        assert((w & 0xF) < 16) by (bit_vector);
        assert((w & 0xFF) < 256) by (bit_vector);
        assert((w & 0xFFF) < 4096) by (bit_vector);
    }
    let op: u16 = (w >> 12) & 0xF;
    let x: u8 = ((w >> 8) & 0xF) as u8;
    let y: u8 = ((w >> 4) & 0xF) as u8;
    let z: u16 = w & 0xF;
    let k: u8 = (w & 0xFF) as u8;
    let n: u16 = w & 0xFFF;
    if w == 0x00E0 {
        Instr::Cls
    } else if w == 0x00EE {
        Instr::Ret
    } else if op == 0x1 {
        Instr::Jump { n }
    } else if op == 0x2 {
        Instr::Call { n }
    } else if op == 0x3 {
        Instr::SkipEqK { x, k }
    } else if op == 0x4 {
        Instr::SkipNeK { x, k }
    } else if op == 0x5 && z == 0 {
        Instr::SkipEqV { x, y }
    } else if op == 0x6 {
        Instr::SetK { x, k }
    } else if op == 0x7 {
        Instr::AddK { x, k }
    } else if op == 0x8 && z == 0x0 {
        Instr::Copy { x, y }
    } else if op == 0x8 && z == 0x1 {
        Instr::Or { x, y }
    } else if op == 0x8 && z == 0x2 {
        Instr::And { x, y }
    } else if op == 0x8 && z == 0x3 {
        Instr::Xor { x, y }
    } else if op == 0x8 && z == 0x4 {
        Instr::Add { x, y }
    } else if op == 0x8 && z == 0x5 {
        Instr::Sub { x, y }
    } else if op == 0x8 && z == 0x6 {
        Instr::ShiftRight { x }
    } else if op == 0x8 && z == 0x7 {
        Instr::SubNeg { x, y }
    } else if op == 0x8 && z == 0xE {
        Instr::ShiftLeft { x }
    } else if op == 0x9 && z == 0 {
        Instr::SkipNeV { x, y }
    } else if op == 0xA {
        Instr::SetIndex { n }
    } else if op == 0xB {
        Instr::JumpPlusV0 { n }
    } else if op == 0xC {
        Instr::Random { x, k }
    } else if op == 0xD {
        Instr::Draw { x, y, rows: z as u8 }
    } else if op == 0xE && k == 0x9E {
        Instr::SkipKey { x }
    } else if op == 0xE && k == 0xA1 {
        Instr::SkipNoKey { x }
    } else if op == 0xF && k == 0x07 {
        Instr::GetDelay { x }
    } else if op == 0xF && k == 0x0A {
        Instr::WaitKey { x }
    } else if op == 0xF && k == 0x15 {
        Instr::SetDelay { x }
    } else if op == 0xF && k == 0x18 {
        Instr::SetSound { x }
    } else if op == 0xF && k == 0x1E {
        Instr::AddIndex { x }
    } else if op == 0xF && k == 0x29 {
        Instr::FontAddr { x }
    } else if op == 0xF && k == 0x33 {
        Instr::StoreBcd { x }
    } else if op == 0xF && k == 0x55 {
        Instr::StoreRegs { x }
    } else if op == 0xF && k == 0x65 {
        Instr::LoadRegs { x }
    } else {
        Instr::Nop
    }
}

} // verus!
