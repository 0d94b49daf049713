//! The BRISC8 instruction set: how one byte decodes into an instruction.
//!
//! Register mode is `0bOOOO_AABB`; immediate mode is `0bOOii_AAii`, where the
//! four immediate bits are split around the register field.
use vstd::prelude::*;

verus! {

/// A decoded BRISC8 instruction. Register operands are in `0..4`, immediates in `0..16`.
#[derive(Debug, Clone, Copy, PartialEq, Eq)]
pub enum Instruction {
    /// `rA = i`: the four-bit immediate, with the top four bits cleared
    Lil { a: u8, imm: u8 },
    /// `rA = (rA & 0xF) | (i << 4)`
    Lih { a: u8, imm: u8 },
    /// `rA = rA + rB`
    Add { a: u8, b: u8 },
    /// `rA = !(rA & rB)`
    Nand { a: u8, b: u8 },
    /// `rA = peripheral[rB]`
    Ior { a: u8, b: u8 },
    /// `peripheral[rB] = rA`
    Iow { a: u8, b: u8 },
    /// `rA = mem[rB]`
    Loa { a: u8, b: u8 },
    /// `mem[rB] = rA`
    Sto { a: u8, b: u8 },
    /// skip the next instruction when `rA < rB` (as signed bytes)
    Skl { a: u8, b: u8 },
    /// `rA, rB = rB, rA`
    Swp { a: u8, b: u8 },
}

/// The register field `AA` (bits 3..2).
pub open spec fn field_a(op: u8) -> u8 {
    ((op >> 2u8) & 3u8) as u8
}

/// The register field `BB` (bits 1..0).
pub open spec fn field_b(op: u8) -> u8 {
    (op & 3u8) as u8
}

/// The four immediate bits of immediate mode, bits 5..4 then 1..0.
pub open spec fn field_imm(op: u8) -> u8 {
    (((op & 0x30u8) >> 2u8) | (op & 3u8)) as u8
}

/// What a byte means to the processor.
pub open spec fn decode(op: u8) -> Instruction {
    let a = field_a(op);
    let b = field_b(op);
    let hi = op >> 4u8;
    if hi < 4 {
        Instruction::Lil { a, imm: field_imm(op) }
    } else if hi < 8 {
        Instruction::Lih { a, imm: field_imm(op) }
    } else if hi == 8 {
        Instruction::Add { a, b }
    } else if hi == 9 {
        Instruction::Nand { a, b }
    } else if hi == 10 {
        Instruction::Ior { a, b }
    } else if hi == 11 {
        Instruction::Iow { a, b }
    } else if hi == 12 {
        Instruction::Loa { a, b }
    } else if hi == 13 {
        Instruction::Sto { a, b }
    } else if hi == 14 {
        Instruction::Skl { a, b }
    } else {
        Instruction::Swp { a, b }
    }
}

/// Decodes one byte; the result is `decode(op)`.
pub fn decode_byte(op: u8) -> (ins: Instruction)
    ensures
        ins == decode(op),
        match ins {
            Instruction::Lil { a, imm } | Instruction::Lih { a, imm } => a < 4 && imm < 16,
            Instruction::Add { a, b } | Instruction::Nand { a, b } | Instruction::Ior { a, b }
            | Instruction::Iow { a, b } | Instruction::Loa { a, b } | Instruction::Sto { a, b }
            | Instruction::Skl { a, b } | Instruction::Swp { a, b } => a < 4 && b < 4,
        },
{
    let a = (op >> 2u8) & 3u8;
    let b = op & 3u8;
    let imm = ((op & 0x30u8) >> 2u8) | (op & 3u8);
    assert(a < 4 && b < 4 && imm < 16) by (bit_vector)
        requires
            a == (op >> 2u8) & 3u8,
            b == op & 3u8,
            imm == ((op & 0x30u8) >> 2u8) | (op & 3u8),
    ;
    let hi = op >> 4u8;
    if hi < 4 {
        Instruction::Lil { a, imm }
    } else if hi < 8 {
        Instruction::Lih { a, imm }
    } else if hi == 8 {
        Instruction::Add { a, b }
    } else if hi == 9 {
        Instruction::Nand { a, b }
    } else if hi == 10 {
        Instruction::Ior { a, b }
    } else if hi == 11 {
        Instruction::Iow { a, b }
    } else if hi == 12 {
        Instruction::Loa { a, b }
    } else if hi == 13 {
        Instruction::Sto { a, b }
    } else if hi == 14 {
        Instruction::Skl { a, b }
    } else {
        Instruction::Swp { a, b }
    }
}

/// A byte read as a two's complement signed value.
pub open spec fn signed(x: u8) -> int {
    if x < 128 { x as int } else { x - 256 }
}

} // verus!

verus! {

/// The register-mode instruction with opcode `opcode` (`8..16`).
pub open spec fn register_instruction(opcode: u8, a: u8, b: u8) -> Instruction {
    if opcode == 8 {
        Instruction::Add { a, b }
    } else if opcode == 9 {
        Instruction::Nand { a, b }
    } else if opcode == 10 {
        Instruction::Ior { a, b }
    } else if opcode == 11 {
        Instruction::Iow { a, b }
    } else if opcode == 12 {
        Instruction::Loa { a, b }
    } else if opcode == 13 {
        Instruction::Sto { a, b }
    } else if opcode == 14 {
        Instruction::Skl { a, b }
    } else {
        Instruction::Swp { a, b }
    }
}

} // verus!
