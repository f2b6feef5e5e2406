//! The opcode table.
//!
//! One byte selects a VM operation and implicitly its operand layout. The
//! mapping between bytes and opcodes is total in both directions: every
//! opcode has exactly one byte, and every byte either names an opcode or is
//! rejected as unrecognized — bytes are never reinterpreted unchecked.
//!
//! Integer families come in four variants each, in a fixed order:
//! variant 1 is the 1-byte class with an immediate source, variant 2 the
//! 1-byte class with a pointer source, variant 3 the 8-byte class with an
//! immediate source, and variant 4 the 8-byte class with a pointer source.

use vstd::prelude::*;

verus! {

/// The opcodes, in byte order starting at 0.
#[derive(Clone, Copy, Debug, PartialEq, Eq, Structural)]
pub enum Op {
    NOP,
    XIT,
    ADD1,
    ADD2,
    ADD3,
    ADD4,
    SUB1,
    SUB2,
    SUB3,
    SUB4,
    MUL1,
    MUL2,
    MUL3,
    MUL4,
    DIV1,
    DIV2,
    DIV3,
    DIV4,
    MOD1,
    MOD2,
    MOD3,
    MOD4,
    SHR1,
    SHR2,
    SHR3,
    SHR4,
    SHL1,
    SHL2,
    SHL3,
    SHL4,
    AND1,
    AND2,
    AND3,
    AND4,
    ORR1,
    ORR2,
    ORR3,
    ORR4,
    XOR1,
    XOR2,
    XOR3,
    XOR4,
    ADDF,
    SUBF,
    MULF,
    DIVF,
    CPY1,
    CPY2,
    CPY3,
    CPY4,
    CPA1,
    CPA2,
    CPA3,
    CPA4,
    JMP,
    JIT,
    CAL,
    RET,
    ALP,
    FRP,
    ASY,
    EXT,
}

/// Planned extension opcodes, reachable behind `Op::EXT` once that prefix is
/// implemented. Executing `EXT` today is a fatal fault, so these are a table
/// of reserved names, not yet behavior.
#[derive(Clone, Copy, Debug, PartialEq, Eq, Structural)]
pub enum OpExt {
    SLP,
    APG,
    FPG,
    ASY,
    CMT,
}

/// The byte of each opcode.
pub open spec fn spec_op_byte(op: Op) -> u8 {
    match op {
        Op::NOP => 0,
        Op::XIT => 1,
        Op::ADD1 => 2,
        Op::ADD2 => 3,
        Op::ADD3 => 4,
        Op::ADD4 => 5,
        Op::SUB1 => 6,
        Op::SUB2 => 7,
        Op::SUB3 => 8,
        Op::SUB4 => 9,
        Op::MUL1 => 10,
        Op::MUL2 => 11,
        Op::MUL3 => 12,
        Op::MUL4 => 13,
        Op::DIV1 => 14,
        Op::DIV2 => 15,
        Op::DIV3 => 16,
        Op::DIV4 => 17,
        Op::MOD1 => 18,
        Op::MOD2 => 19,
        Op::MOD3 => 20,
        Op::MOD4 => 21,
        Op::SHR1 => 22,
        Op::SHR2 => 23,
        Op::SHR3 => 24,
        Op::SHR4 => 25,
        Op::SHL1 => 26,
        Op::SHL2 => 27,
        Op::SHL3 => 28,
        Op::SHL4 => 29,
        Op::AND1 => 30,
        Op::AND2 => 31,
        Op::AND3 => 32,
        Op::AND4 => 33,
        Op::ORR1 => 34,
        Op::ORR2 => 35,
        Op::ORR3 => 36,
        Op::ORR4 => 37,
        Op::XOR1 => 38,
        Op::XOR2 => 39,
        Op::XOR3 => 40,
        Op::XOR4 => 41,
        Op::ADDF => 42,
        Op::SUBF => 43,
        Op::MULF => 44,
        Op::DIVF => 45,
        Op::CPY1 => 46,
        Op::CPY2 => 47,
        Op::CPY3 => 48,
        Op::CPY4 => 49,
        Op::CPA1 => 50,
        Op::CPA2 => 51,
        Op::CPA3 => 52,
        Op::CPA4 => 53,
        Op::JMP => 54,
        Op::JIT => 55,
        Op::CAL => 56,
        Op::RET => 57,
        Op::ALP => 58,
        Op::FRP => 59,
        Op::ASY => 60,
        Op::EXT => 61,
    }
}

/// The total byte-to-opcode table: bytes past the table decode to `None`.
pub open spec fn spec_decode(b: u8) -> Option<Op> {
    if b == 0 {
        Some(Op::NOP)
    } else if b == 1 {
        Some(Op::XIT)
    } else if b == 2 {
        Some(Op::ADD1)
    } else if b == 3 {
        Some(Op::ADD2)
    } else if b == 4 {
        Some(Op::ADD3)
    } else if b == 5 {
        Some(Op::ADD4)
    } else if b == 6 {
        Some(Op::SUB1)
    } else if b == 7 {
        Some(Op::SUB2)
    } else if b == 8 {
        Some(Op::SUB3)
    } else if b == 9 {
        Some(Op::SUB4)
    } else if b == 10 {
        Some(Op::MUL1)
    } else if b == 11 {
        Some(Op::MUL2)
    } else if b == 12 {
        Some(Op::MUL3)
    } else if b == 13 {
        Some(Op::MUL4)
    } else if b == 14 {
        Some(Op::DIV1)
    } else if b == 15 {
        Some(Op::DIV2)
    } else if b == 16 {
        Some(Op::DIV3)
    } else if b == 17 {
        Some(Op::DIV4)
    } else if b == 18 {
        Some(Op::MOD1)
    } else if b == 19 {
        Some(Op::MOD2)
    } else if b == 20 {
        Some(Op::MOD3)
    } else if b == 21 {
        Some(Op::MOD4)
    } else if b == 22 {
        Some(Op::SHR1)
    } else if b == 23 {
        Some(Op::SHR2)
    } else if b == 24 {
        Some(Op::SHR3)
    } else if b == 25 {
        Some(Op::SHR4)
    } else if b == 26 {
        Some(Op::SHL1)
    } else if b == 27 {
        Some(Op::SHL2)
    } else if b == 28 {
        Some(Op::SHL3)
    } else if b == 29 {
        Some(Op::SHL4)
    } else if b == 30 {
        Some(Op::AND1)
    } else if b == 31 {
        Some(Op::AND2)
    } else if b == 32 {
        Some(Op::AND3)
    } else if b == 33 {
        Some(Op::AND4)
    } else if b == 34 {
        Some(Op::ORR1)
    } else if b == 35 {
        Some(Op::ORR2)
    } else if b == 36 {
        Some(Op::ORR3)
    } else if b == 37 {
        Some(Op::ORR4)
    } else if b == 38 {
        Some(Op::XOR1)
    } else if b == 39 {
        Some(Op::XOR2)
    } else if b == 40 {
        Some(Op::XOR3)
    } else if b == 41 {
        Some(Op::XOR4)
    } else if b == 42 {
        Some(Op::ADDF)
    } else if b == 43 {
        Some(Op::SUBF)
    } else if b == 44 {
        Some(Op::MULF)
    } else if b == 45 {
        Some(Op::DIVF)
    } else if b == 46 {
        Some(Op::CPY1)
    } else if b == 47 {
        Some(Op::CPY2)
    } else if b == 48 {
        Some(Op::CPY3)
    } else if b == 49 {
        Some(Op::CPY4)
    } else if b == 50 {
        Some(Op::CPA1)
    } else if b == 51 {
        Some(Op::CPA2)
    } else if b == 52 {
        Some(Op::CPA3)
    } else if b == 53 {
        Some(Op::CPA4)
    } else if b == 54 {
        Some(Op::JMP)
    } else if b == 55 {
        Some(Op::JIT)
    } else if b == 56 {
        Some(Op::CAL)
    } else if b == 57 {
        Some(Op::RET)
    } else if b == 58 {
        Some(Op::ALP)
    } else if b == 59 {
        Some(Op::FRP)
    } else if b == 60 {
        Some(Op::ASY)
    } else if b == 61 {
        Some(Op::EXT)
    } else {
        None
    }
}

/// Decoding inverts encoding, and every decoded opcode encodes back to its
/// byte: the two directions of the table agree.
pub proof fn lemma_op_byte_decode()
    ensures
        forall|op: Op| spec_decode(spec_op_byte(op)) == Some(op),
        forall|b: u8| (#[trigger] spec_decode(b)) matches Some(op) ==> spec_op_byte(op) == b,
{
}

impl Op {
    /// The byte this opcode is encoded as.
    pub fn to_byte(self) -> (b: u8)
        ensures
            b == spec_op_byte(self),
    {
        match self {
            Op::NOP => 0,
            Op::XIT => 1,
            Op::ADD1 => 2,
            Op::ADD2 => 3,
            Op::ADD3 => 4,
            Op::ADD4 => 5,
            Op::SUB1 => 6,
            Op::SUB2 => 7,
            Op::SUB3 => 8,
            Op::SUB4 => 9,
            Op::MUL1 => 10,
            Op::MUL2 => 11,
            Op::MUL3 => 12,
            Op::MUL4 => 13,
            Op::DIV1 => 14,
            Op::DIV2 => 15,
            Op::DIV3 => 16,
            Op::DIV4 => 17,
            Op::MOD1 => 18,
            Op::MOD2 => 19,
            Op::MOD3 => 20,
            Op::MOD4 => 21,
            Op::SHR1 => 22,
            Op::SHR2 => 23,
            Op::SHR3 => 24,
            Op::SHR4 => 25,
            Op::SHL1 => 26,
            Op::SHL2 => 27,
            Op::SHL3 => 28,
            Op::SHL4 => 29,
            Op::AND1 => 30,
            Op::AND2 => 31,
            Op::AND3 => 32,
            Op::AND4 => 33,
            Op::ORR1 => 34,
            Op::ORR2 => 35,
            Op::ORR3 => 36,
            Op::ORR4 => 37,
            Op::XOR1 => 38,
            Op::XOR2 => 39,
            Op::XOR3 => 40,
            Op::XOR4 => 41,
            Op::ADDF => 42,
            Op::SUBF => 43,
            Op::MULF => 44,
            Op::DIVF => 45,
            Op::CPY1 => 46,
            Op::CPY2 => 47,
            Op::CPY3 => 48,
            Op::CPY4 => 49,
            Op::CPA1 => 50,
            Op::CPA2 => 51,
            Op::CPA3 => 52,
            Op::CPA4 => 53,
            Op::JMP => 54,
            Op::JIT => 55,
            Op::CAL => 56,
            Op::RET => 57,
            Op::ALP => 58,
            Op::FRP => 59,
            Op::ASY => 60,
            Op::EXT => 61,
        }
    }

    /// Decode a byte through the total table.
    pub fn from_byte(b: u8) -> (r: Option<Op>)
        ensures
            r == spec_decode(b),
    {
        if b <= 61 {
            let ops: [Op; 62] = [
                Op::NOP,
                Op::XIT,
                Op::ADD1,
                Op::ADD2,
                Op::ADD3,
                Op::ADD4,
                Op::SUB1,
                Op::SUB2,
                Op::SUB3,
                Op::SUB4,
                Op::MUL1,
                Op::MUL2,
                Op::MUL3,
                Op::MUL4,
                Op::DIV1,
                Op::DIV2,
                Op::DIV3,
                Op::DIV4,
                Op::MOD1,
                Op::MOD2,
                Op::MOD3,
                Op::MOD4,
                Op::SHR1,
                Op::SHR2,
                Op::SHR3,
                Op::SHR4,
                Op::SHL1,
                Op::SHL2,
                Op::SHL3,
                Op::SHL4,
                Op::AND1,
                Op::AND2,
                Op::AND3,
                Op::AND4,
                Op::ORR1,
                Op::ORR2,
                Op::ORR3,
                Op::ORR4,
                Op::XOR1,
                Op::XOR2,
                Op::XOR3,
                Op::XOR4,
                Op::ADDF,
                Op::SUBF,
                Op::MULF,
                Op::DIVF,
                Op::CPY1,
                Op::CPY2,
                Op::CPY3,
                Op::CPY4,
                Op::CPA1,
                Op::CPA2,
                Op::CPA3,
                Op::CPA4,
                Op::JMP,
                Op::JIT,
                Op::CAL,
                Op::RET,
                Op::ALP,
                Op::FRP,
                Op::ASY,
                Op::EXT,
            ];
            Some(ops[b as usize])
        } else {
            None
        }
    }
}

/// The operand width classes an instruction can work at: 1 byte or 8 bytes.
#[derive(Clone, Copy, Debug, PartialEq, Eq, Structural)]
pub enum Width {
    W1,
    W8,
}

impl Width {
    /// The number of bytes of this class.
    pub open spec fn spec_bytes(self) -> nat {
        match self {
            Width::W1 => 1,
            Width::W8 => 8,
        }
    }

    /// The number of bytes of this class.
    pub fn bytes(self) -> (n: u64)
        ensures
            n == self.spec_bytes(),
    {
        match self {
            Width::W1 => 1,
            Width::W8 => 8,
        }
    }
}

/// How an instruction's source operand is encoded: an immediate literal of
/// the width class, or an 8-byte address pointing at the value.
#[derive(Clone, Copy, Debug, PartialEq, Eq, Structural)]
pub enum SrcKind {
    Imm,
    Ptr,
}

/// The integer arithmetic and bitwise operation families.
#[derive(Clone, Copy, Debug, PartialEq, Eq, Structural)]
pub enum IntFam {
    Add,
    Sub,
    Mul,
    Div,
    Mod,
    Shr,
    Shl,
    And,
    Orr,
    Xor,
}

/// The float arithmetic families.
#[derive(Clone, Copy, Debug, PartialEq, Eq, Structural)]
pub enum FloatFam {
    Add,
    Sub,
    Mul,
    Div,
}

/// An opcode decoded to the class the dispatch engine executes.
#[derive(Clone, Copy, Debug, PartialEq, Eq, Structural)]
pub enum Instr {
    Nop,
    Xit,
    Int(IntFam, Width, SrcKind),
    Flt(FloatFam),
    Cpy(Width, SrcKind),
    Cpa(Width, SrcKind),
    Jmp,
    Jit,
    Cal,
    Ret,
    Alp,
    Frp,
    Reserved,
}

/// The class of each opcode.
pub open spec fn spec_classify(op: Op) -> Instr {
    match op {
        Op::NOP => Instr::Nop,
        Op::XIT => Instr::Xit,
        Op::ADD1 => Instr::Int(IntFam::Add, Width::W1, SrcKind::Imm),
        Op::ADD2 => Instr::Int(IntFam::Add, Width::W1, SrcKind::Ptr),
        Op::ADD3 => Instr::Int(IntFam::Add, Width::W8, SrcKind::Imm),
        Op::ADD4 => Instr::Int(IntFam::Add, Width::W8, SrcKind::Ptr),
        Op::SUB1 => Instr::Int(IntFam::Sub, Width::W1, SrcKind::Imm),
        Op::SUB2 => Instr::Int(IntFam::Sub, Width::W1, SrcKind::Ptr),
        Op::SUB3 => Instr::Int(IntFam::Sub, Width::W8, SrcKind::Imm),
        Op::SUB4 => Instr::Int(IntFam::Sub, Width::W8, SrcKind::Ptr),
        Op::MUL1 => Instr::Int(IntFam::Mul, Width::W1, SrcKind::Imm),
        Op::MUL2 => Instr::Int(IntFam::Mul, Width::W1, SrcKind::Ptr),
        Op::MUL3 => Instr::Int(IntFam::Mul, Width::W8, SrcKind::Imm),
        Op::MUL4 => Instr::Int(IntFam::Mul, Width::W8, SrcKind::Ptr),
        Op::DIV1 => Instr::Int(IntFam::Div, Width::W1, SrcKind::Imm),
        Op::DIV2 => Instr::Int(IntFam::Div, Width::W1, SrcKind::Ptr),
        Op::DIV3 => Instr::Int(IntFam::Div, Width::W8, SrcKind::Imm),
        Op::DIV4 => Instr::Int(IntFam::Div, Width::W8, SrcKind::Ptr),
        Op::MOD1 => Instr::Int(IntFam::Mod, Width::W1, SrcKind::Imm),
        Op::MOD2 => Instr::Int(IntFam::Mod, Width::W1, SrcKind::Ptr),
        Op::MOD3 => Instr::Int(IntFam::Mod, Width::W8, SrcKind::Imm),
        Op::MOD4 => Instr::Int(IntFam::Mod, Width::W8, SrcKind::Ptr),
        Op::SHR1 => Instr::Int(IntFam::Shr, Width::W1, SrcKind::Imm),
        Op::SHR2 => Instr::Int(IntFam::Shr, Width::W1, SrcKind::Ptr),
        Op::SHR3 => Instr::Int(IntFam::Shr, Width::W8, SrcKind::Imm),
        Op::SHR4 => Instr::Int(IntFam::Shr, Width::W8, SrcKind::Ptr),
        Op::SHL1 => Instr::Int(IntFam::Shl, Width::W1, SrcKind::Imm),
        Op::SHL2 => Instr::Int(IntFam::Shl, Width::W1, SrcKind::Ptr),
        Op::SHL3 => Instr::Int(IntFam::Shl, Width::W8, SrcKind::Imm),
        Op::SHL4 => Instr::Int(IntFam::Shl, Width::W8, SrcKind::Ptr),
        Op::AND1 => Instr::Int(IntFam::And, Width::W1, SrcKind::Imm),
        Op::AND2 => Instr::Int(IntFam::And, Width::W1, SrcKind::Ptr),
        Op::AND3 => Instr::Int(IntFam::And, Width::W8, SrcKind::Imm),
        Op::AND4 => Instr::Int(IntFam::And, Width::W8, SrcKind::Ptr),
        Op::ORR1 => Instr::Int(IntFam::Orr, Width::W1, SrcKind::Imm),
        Op::ORR2 => Instr::Int(IntFam::Orr, Width::W1, SrcKind::Ptr),
        Op::ORR3 => Instr::Int(IntFam::Orr, Width::W8, SrcKind::Imm),
        Op::ORR4 => Instr::Int(IntFam::Orr, Width::W8, SrcKind::Ptr),
        Op::XOR1 => Instr::Int(IntFam::Xor, Width::W1, SrcKind::Imm),
        Op::XOR2 => Instr::Int(IntFam::Xor, Width::W1, SrcKind::Ptr),
        Op::XOR3 => Instr::Int(IntFam::Xor, Width::W8, SrcKind::Imm),
        Op::XOR4 => Instr::Int(IntFam::Xor, Width::W8, SrcKind::Ptr),
        Op::ADDF => Instr::Flt(FloatFam::Add),
        Op::SUBF => Instr::Flt(FloatFam::Sub),
        Op::MULF => Instr::Flt(FloatFam::Mul),
        Op::DIVF => Instr::Flt(FloatFam::Div),
        Op::CPY1 => Instr::Cpy(Width::W1, SrcKind::Imm),
        Op::CPY2 => Instr::Cpy(Width::W1, SrcKind::Ptr),
        Op::CPY3 => Instr::Cpy(Width::W8, SrcKind::Imm),
        Op::CPY4 => Instr::Cpy(Width::W8, SrcKind::Ptr),
        Op::CPA1 => Instr::Cpa(Width::W1, SrcKind::Imm),
        Op::CPA2 => Instr::Cpa(Width::W1, SrcKind::Ptr),
        Op::CPA3 => Instr::Cpa(Width::W8, SrcKind::Imm),
        Op::CPA4 => Instr::Cpa(Width::W8, SrcKind::Ptr),
        Op::JMP => Instr::Jmp,
        Op::JIT => Instr::Jit,
        Op::CAL => Instr::Cal,
        Op::RET => Instr::Ret,
        Op::ALP => Instr::Alp,
        Op::FRP => Instr::Frp,
        Op::ASY => Instr::Reserved,
        Op::EXT => Instr::Reserved,
    }
}

impl Op {
    /// The class of this opcode, as the dispatch engine executes it.
    pub fn classify(self) -> (r: Instr)
        ensures
            r == spec_classify(self),
    {
        match self {
            Op::NOP => Instr::Nop,
            Op::XIT => Instr::Xit,
            Op::ADD1 => Instr::Int(IntFam::Add, Width::W1, SrcKind::Imm),
            Op::ADD2 => Instr::Int(IntFam::Add, Width::W1, SrcKind::Ptr),
            Op::ADD3 => Instr::Int(IntFam::Add, Width::W8, SrcKind::Imm),
            Op::ADD4 => Instr::Int(IntFam::Add, Width::W8, SrcKind::Ptr),
            Op::SUB1 => Instr::Int(IntFam::Sub, Width::W1, SrcKind::Imm),
            Op::SUB2 => Instr::Int(IntFam::Sub, Width::W1, SrcKind::Ptr),
            Op::SUB3 => Instr::Int(IntFam::Sub, Width::W8, SrcKind::Imm),
            Op::SUB4 => Instr::Int(IntFam::Sub, Width::W8, SrcKind::Ptr),
            Op::MUL1 => Instr::Int(IntFam::Mul, Width::W1, SrcKind::Imm),
            Op::MUL2 => Instr::Int(IntFam::Mul, Width::W1, SrcKind::Ptr),
            Op::MUL3 => Instr::Int(IntFam::Mul, Width::W8, SrcKind::Imm),
            Op::MUL4 => Instr::Int(IntFam::Mul, Width::W8, SrcKind::Ptr),
            Op::DIV1 => Instr::Int(IntFam::Div, Width::W1, SrcKind::Imm),
            Op::DIV2 => Instr::Int(IntFam::Div, Width::W1, SrcKind::Ptr),
            Op::DIV3 => Instr::Int(IntFam::Div, Width::W8, SrcKind::Imm),
            Op::DIV4 => Instr::Int(IntFam::Div, Width::W8, SrcKind::Ptr),
            Op::MOD1 => Instr::Int(IntFam::Mod, Width::W1, SrcKind::Imm),
            Op::MOD2 => Instr::Int(IntFam::Mod, Width::W1, SrcKind::Ptr),
            Op::MOD3 => Instr::Int(IntFam::Mod, Width::W8, SrcKind::Imm),
            Op::MOD4 => Instr::Int(IntFam::Mod, Width::W8, SrcKind::Ptr),
            Op::SHR1 => Instr::Int(IntFam::Shr, Width::W1, SrcKind::Imm),
            Op::SHR2 => Instr::Int(IntFam::Shr, Width::W1, SrcKind::Ptr),
            Op::SHR3 => Instr::Int(IntFam::Shr, Width::W8, SrcKind::Imm),
            Op::SHR4 => Instr::Int(IntFam::Shr, Width::W8, SrcKind::Ptr),
            Op::SHL1 => Instr::Int(IntFam::Shl, Width::W1, SrcKind::Imm),
            Op::SHL2 => Instr::Int(IntFam::Shl, Width::W1, SrcKind::Ptr),
            Op::SHL3 => Instr::Int(IntFam::Shl, Width::W8, SrcKind::Imm),
            Op::SHL4 => Instr::Int(IntFam::Shl, Width::W8, SrcKind::Ptr),
            Op::AND1 => Instr::Int(IntFam::And, Width::W1, SrcKind::Imm),
            Op::AND2 => Instr::Int(IntFam::And, Width::W1, SrcKind::Ptr),
            Op::AND3 => Instr::Int(IntFam::And, Width::W8, SrcKind::Imm),
            Op::AND4 => Instr::Int(IntFam::And, Width::W8, SrcKind::Ptr),
            Op::ORR1 => Instr::Int(IntFam::Orr, Width::W1, SrcKind::Imm),
            Op::ORR2 => Instr::Int(IntFam::Orr, Width::W1, SrcKind::Ptr),
            Op::ORR3 => Instr::Int(IntFam::Orr, Width::W8, SrcKind::Imm),
            Op::ORR4 => Instr::Int(IntFam::Orr, Width::W8, SrcKind::Ptr),
            Op::XOR1 => Instr::Int(IntFam::Xor, Width::W1, SrcKind::Imm),
            Op::XOR2 => Instr::Int(IntFam::Xor, Width::W1, SrcKind::Ptr),
            Op::XOR3 => Instr::Int(IntFam::Xor, Width::W8, SrcKind::Imm),
            Op::XOR4 => Instr::Int(IntFam::Xor, Width::W8, SrcKind::Ptr),
            Op::ADDF => Instr::Flt(FloatFam::Add),
            Op::SUBF => Instr::Flt(FloatFam::Sub),
            Op::MULF => Instr::Flt(FloatFam::Mul),
            Op::DIVF => Instr::Flt(FloatFam::Div),
            Op::CPY1 => Instr::Cpy(Width::W1, SrcKind::Imm),
            Op::CPY2 => Instr::Cpy(Width::W1, SrcKind::Ptr),
            Op::CPY3 => Instr::Cpy(Width::W8, SrcKind::Imm),
            Op::CPY4 => Instr::Cpy(Width::W8, SrcKind::Ptr),
            Op::CPA1 => Instr::Cpa(Width::W1, SrcKind::Imm),
            Op::CPA2 => Instr::Cpa(Width::W1, SrcKind::Ptr),
            Op::CPA3 => Instr::Cpa(Width::W8, SrcKind::Imm),
            Op::CPA4 => Instr::Cpa(Width::W8, SrcKind::Ptr),
            Op::JMP => Instr::Jmp,
            Op::JIT => Instr::Jit,
            Op::CAL => Instr::Cal,
            Op::RET => Instr::Ret,
            Op::ALP => Instr::Alp,
            Op::FRP => Instr::Frp,
            Op::ASY => Instr::Reserved,
            Op::EXT => Instr::Reserved,
        }
    }
}

} // verus!
