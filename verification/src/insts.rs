//! Decoded instruction forms for the RV64IMC subset, and the decoder
//! from raw code words to those forms.

use vstd::prelude::*;
use crate::cpu::{
    CPU, CpuView, ExecOut, SyscallAction, spec_ecall, MEM_SIZE,
    le16_of, le32_of, le64_of, store16_le, store32_le, store64_le,
    lemma_wrapping_add_even, lemma_small_u64_fits_usize,
};

verus! {

/// Index of a general-purpose register (0..32).
pub type Reg = u8;

/// Index of a floating-point register slot (0..32).
pub type FReg = u8;

pub const REG_ZR: Reg = 0;
pub const REG_RA: Reg = 1;
pub const REG_SP: Reg = 2;
pub const REG_A0: Reg = 10;
pub const REG_A1: Reg = 11;
pub const REG_A2: Reg = 12;
pub const REG_A7: Reg = 17;

/// Conditional-branch predicate: equal, not-equal, signed less-than,
/// unsigned less-than, signed at-least, unsigned at-least.
#[derive(Debug, Clone, Copy, PartialEq, Eq, Structural)]
pub enum Predicate { EQ, NE, LT, LTU, GE, GEU }

/// Control-and-status-register access form (decoded but not executed).
#[derive(Debug, Clone, Copy, PartialEq, Eq, Structural)]
pub enum CSR { RW, RS, RC, RWI, RSI, RCI }

/// Integer ALU operation. The `W` variants operate on the low 32 bits
/// and sign-extend the 32-bit result to 64 bits.
#[derive(Debug, Clone, Copy, PartialEq, Eq, Structural)]
pub enum ALU {
    Add, AddW, Sub, SubW, And, Or, XOr,
    SLT, SLTU,
    SLL, SLLW, SRL, SRLW, SRA, SRAW,
    Mul, MulW,
    Div, DivW, DivU, DivUW,
    Rem, RemW, RemU, RemUW,
}

/// Floating-point compute operation (decoded form only; deferred).
#[derive(Debug, Clone, Copy, PartialEq, Eq, Structural)]
pub enum FPU {
    Add, Sub, Mul, Div, Min, Max, Sqrt,
}

/// IEEE 754 rounding mode of a floating-point instruction.
#[derive(Debug, Clone, Copy, PartialEq, Eq, Structural)]
pub enum RoundingMode {
    RNE, RTZ, RDN, RUP, RMM,
}

/// A decoded instruction.
#[derive(Debug, Clone, Copy, PartialEq, Eq, Structural)]
pub enum Inst {
    Unknown,
    Load { dst: Reg, width: u8, base: Reg, offset: i32, signext: bool },
    Store { src: Reg, width: u8, base: Reg, offset: i32 },
    JumpAndLink { dst: Reg, offset: i32 },
    JumpAndLinkReg { dst: Reg, base: Reg, offset: i32 },
    Branch { pred: Predicate, src1: Reg, src2: Reg, offset: i32 },
    CtrlStatusReg { op: CSR, dst: Reg, src: Reg, csr: u16 },
    ECall { privilege: u8 },
    EBreak { privilege: u8 },
    ALUImm { op: ALU, dst: Reg, src1: Reg, imm: u32 },
    ALUReg { op: ALU, dst: Reg, src1: Reg, src2: Reg },
    LoadUpperImmediate { dst: Reg, imm: u32 },
    AddUpperImmediateToPC { dst: Reg, imm: u32 },
    LoadFP { dst: FReg, width: u8, base: Reg, offset: i32 },
    StoreFP { src: FReg, width: u8, base: Reg, offset: i32 },
    FComp { op: FPU, dst: FReg, src1: FReg, dst2: FReg, rm: RoundingMode, width: u8 },
    FMADD { dst: FReg, src1: FReg, src2: FReg, src3: FReg,
            rm: RoundingMode, width: u8, negate: bool },
    FMSUB { dst: FReg, src1: FReg, src2: FReg, src3: FReg,
            rm: RoundingMode, width: u8, negate: bool },
}

/// The failure kinds threaded through decoding, execution and loading.
/// `Exit` is not a fault: it carries the guest's exit code out of the
/// step loop.
#[derive(Debug, Clone, PartialEq, Eq)]
pub enum Error {
    Illegal,
    InvalidEncoding(&'static str),
    Unimplemented(&'static str),
    OutOfBounds,
    Exit(i32),
    IO(&'static str),
    ELF(String),
}

/// Sign-extend the low `nbits` bits of `x` to a full 32-bit word,
/// discarding anything above them.
pub open spec fn spec_sign_extend(x: u32, nbits: u32) -> u32
    recommends 1 <= nbits <= 32,
{
    ((x as i32) << ((32 - nbits) as u32) >> ((32 - nbits) as u32)) as u32
}

pub fn sign_extend(x: u32, nbits: u32) -> (r: u32)
    requires
        1 <= nbits <= 32,
    ensures
        r == spec_sign_extend(x, nbits),
{
    let shift: u32 = 32 - nbits;
    (((x as i32) << shift) >> shift) as u32
}

// Field extraction for the base 32-bit formats.

pub open spec fn spec_rd(raw: u32) -> Reg { ((raw >> 7) & 0x1f) as Reg }

pub open spec fn spec_rs1(raw: u32) -> Reg { ((raw >> 15) & 0x1f) as Reg }

pub open spec fn spec_rs2(raw: u32) -> Reg { ((raw >> 20) & 0x1f) as Reg }

pub open spec fn spec_funct3(raw: u32) -> u32 { (raw >> 12) & 0x7 }

pub open spec fn spec_funct7(raw: u32) -> u32 { (raw >> 25) & 0x7f }

/// I-format immediate: 12 bits from bits 20..31, sign-extended.
pub open spec fn spec_imm_i(raw: u32) -> u32 {
    spec_sign_extend((raw & 0xfff00000) >> 20, 12)
}

/// S-format immediate: split 7/5 from bits 25..31 and 7..11.
pub open spec fn spec_imm_s(raw: u32) -> u32 {
    spec_sign_extend(((raw & 0xfe000000) >> 20) | ((raw & 0x00000f80) >> 7), 12)
}

/// B-format immediate: bits 31, 7, 30..25, 11..8 form a 13-bit signed
/// byte offset whose bit 0 is always zero.
pub open spec fn spec_imm_b(raw: u32) -> u32 {
    spec_sign_extend(
        ((raw & 0x80000000) >> 19)
        | ((raw & 0x7e000000) >> 20)
        | ((raw & 0x00000f00) >> 7)
        | ((raw & 0x00000080) << 4),
        13,
    )
}

/// U-format immediate: the 20 high bits, kept in place.
pub open spec fn spec_imm_u(raw: u32) -> u32 {
    raw & 0xfffff000
}

/// J-format immediate: bits 31, 19..12, 20, 30..21 form a 21-bit signed
/// byte offset whose bit 0 is always zero.
pub open spec fn spec_imm_j(raw: u32) -> u32 {
    spec_sign_extend(
        ((raw & 0x80000000) >> 11)
        | ((raw & 0x7fe00000) >> 20)
        | ((raw & 0x00100000) >> 9)
        | (raw & 0x000ff000),
        21,
    )
}

/// Decoding of the conditional-branch opcode.
pub open spec fn spec_parse_branch(raw: u32) -> Result<Inst, Error> {
    let f3 = spec_funct3(raw);
    if f3 == 0b000 || f3 == 0b001 || f3 == 0b100 || f3 == 0b101 || f3 == 0b110 || f3 == 0b111 {
        let pred = if f3 == 0b000 { Predicate::EQ }
            else if f3 == 0b001 { Predicate::NE }
            else if f3 == 0b100 { Predicate::LT }
            else if f3 == 0b101 { Predicate::GE }
            else if f3 == 0b110 { Predicate::LTU }
            else { Predicate::GEU };
        Ok(Inst::Branch {
            pred,
            src1: spec_rs1(raw),
            src2: spec_rs2(raw),
            offset: spec_imm_b(raw) as i32,
        })
    } else {
        Err(Error::InvalidEncoding("unknown predicate for branch"))
    }
}

/// Decoding of the integer-load opcode.
pub open spec fn spec_parse_load(raw: u32) -> Result<Inst, Error> {
    let f3 = spec_funct3(raw);
    if f3 <= 0b110 {
        let width: u8 = if f3 == 0b000 || f3 == 0b100 { 1 }
            else if f3 == 0b001 || f3 == 0b101 { 2 }
            else if f3 == 0b010 || f3 == 0b110 { 4 }
            else { 8 };
        let signext = f3 <= 0b011;
        Ok(Inst::Load {
            dst: spec_rd(raw),
            width,
            base: spec_rs1(raw),
            offset: spec_imm_i(raw) as i32,
            signext,
        })
    } else {
        Err(Error::InvalidEncoding("invalid load width/sign extension"))
    }
}

/// Decoding of the integer-store opcode.
pub open spec fn spec_parse_store(raw: u32) -> Result<Inst, Error> {
    let f3 = spec_funct3(raw);
    if f3 <= 0b011 {
        let width: u8 = if f3 == 0b000 { 1 }
            else if f3 == 0b001 { 2 }
            else if f3 == 0b010 { 4 }
            else { 8 };
        Ok(Inst::Store {
            src: spec_rs2(raw),
            width,
            base: spec_rs1(raw),
            offset: spec_imm_s(raw) as i32,
        })
    } else {
        Err(Error::InvalidEncoding("invalid store length"))
    }
}

/// Decoding of the ALU-with-immediate opcode.
pub open spec fn spec_parse_alu_imm(raw: u32) -> Result<Inst, Error> {
    let dst = spec_rd(raw);
    let src1 = spec_rs1(raw);
    let imm12 = spec_imm_i(raw);
    let f3 = spec_funct3(raw);
    let funct7 = spec_funct7(raw) & !1;
    if f3 == 0b000 { Ok(Inst::ALUImm { op: ALU::Add, dst, src1, imm: imm12 }) }
    else if f3 == 0b010 { Ok(Inst::ALUImm { op: ALU::SLT, dst, src1, imm: imm12 }) }
    else if f3 == 0b011 { Ok(Inst::ALUImm { op: ALU::SLTU, dst, src1, imm: imm12 }) }
    else if f3 == 0b100 { Ok(Inst::ALUImm { op: ALU::XOr, dst, src1, imm: imm12 }) }
    else if f3 == 0b110 { Ok(Inst::ALUImm { op: ALU::Or, dst, src1, imm: imm12 }) }
    else if f3 == 0b111 { Ok(Inst::ALUImm { op: ALU::And, dst, src1, imm: imm12 }) }
    else if f3 == 0b001 && funct7 == 0b0000000 {
        Ok(Inst::ALUImm { op: ALU::SLL, dst, src1, imm: (raw >> 20) & 0x3f })
    }
    else if f3 == 0b101 && funct7 == 0b0000000 {
        Ok(Inst::ALUImm { op: ALU::SRL, dst, src1, imm: (raw >> 20) & 0x3f })
    }
    else if f3 == 0b101 && funct7 == 0b0100000 {
        Ok(Inst::ALUImm { op: ALU::SRA, dst, src1, imm: (raw >> 20) & 0x3f })
    }
    else { Err(Error::Unimplemented("ALU instruction extensions")) }
}

/// Decoding of the ALU-with-register opcode, including multiply/divide.
pub open spec fn spec_parse_alu_reg(raw: u32) -> Result<Inst, Error> {
    let dst = spec_rd(raw);
    let src1 = spec_rs1(raw);
    let src2 = spec_rs2(raw);
    let f3 = spec_funct3(raw);
    let f7 = spec_funct7(raw);
    if f3 == 0b000 && f7 == 0b0000000 { Ok(Inst::ALUReg { op: ALU::Add, dst, src1, src2 }) }
    else if f3 == 0b000 && f7 == 0b0100000 { Ok(Inst::ALUReg { op: ALU::Sub, dst, src1, src2 }) }
    else if f3 == 0b000 && f7 == 0b0000001 { Ok(Inst::ALUReg { op: ALU::Mul, dst, src1, src2 }) }
    else if f3 == 0b001 && f7 == 0b0000000 { Ok(Inst::ALUReg { op: ALU::SLL, dst, src1, src2 }) }
    else if f3 == 0b001 && f7 == 0b0000001 { Err(Error::Unimplemented("mulh")) }
    else if f3 == 0b010 && f7 == 0b0000000 { Ok(Inst::ALUReg { op: ALU::SLT, dst, src1, src2 }) }
    else if f3 == 0b010 && f7 == 0b0000001 { Err(Error::Unimplemented("mulhsu")) }
    else if f3 == 0b011 && f7 == 0b0000000 { Ok(Inst::ALUReg { op: ALU::SLTU, dst, src1, src2 }) }
    else if f3 == 0b011 && f7 == 0b0000001 { Err(Error::Unimplemented("mulhu")) }
    else if f3 == 0b100 && f7 == 0b0000000 { Ok(Inst::ALUReg { op: ALU::XOr, dst, src1, src2 }) }
    else if f3 == 0b100 && f7 == 0b0000001 { Ok(Inst::ALUReg { op: ALU::Div, dst, src1, src2 }) }
    else if f3 == 0b101 && f7 == 0b0000000 { Ok(Inst::ALUReg { op: ALU::SRL, dst, src1, src2 }) }
    else if f3 == 0b101 && f7 == 0b0000001 { Ok(Inst::ALUReg { op: ALU::DivU, dst, src1, src2 }) }
    else if f3 == 0b101 && f7 == 0b0100000 { Ok(Inst::ALUReg { op: ALU::SRA, dst, src1, src2 }) }
    else if f3 == 0b110 && f7 == 0b0000000 { Ok(Inst::ALUReg { op: ALU::Or, dst, src1, src2 }) }
    else if f3 == 0b110 && f7 == 0b0000001 { Ok(Inst::ALUReg { op: ALU::Rem, dst, src1, src2 }) }
    else if f3 == 0b111 && f7 == 0b0000000 { Ok(Inst::ALUReg { op: ALU::And, dst, src1, src2 }) }
    else if f3 == 0b111 && f7 == 0b0000001 { Ok(Inst::ALUReg { op: ALU::RemU, dst, src1, src2 }) }
    else { Err(Error::Unimplemented("ALU instruction extensions")) }
}

/// Decoding of the system opcode: `ecall`, `ebreak` and CSR access.
pub open spec fn spec_parse_system(raw: u32) -> Result<Inst, Error> {
    let dst = spec_rd(raw);
    let src = spec_rs1(raw);
    let csr = ((raw & 0xfff00000) >> 20) as u16;
    let f3 = spec_funct3(raw);
    if f3 == 0b000 && dst == 0 && src == 0 && csr == 0 { Ok(Inst::ECall { privilege: 0 }) }
    else if f3 == 0b000 && dst == 0 && src == 0 && csr == 1 { Ok(Inst::EBreak { privilege: 0 }) }
    else if f3 == 0b001 { Ok(Inst::CtrlStatusReg { op: CSR::RW, dst, src, csr }) }
    else if f3 == 0b010 { Ok(Inst::CtrlStatusReg { op: CSR::RS, dst, src, csr }) }
    else if f3 == 0b011 { Ok(Inst::CtrlStatusReg { op: CSR::RC, dst, src, csr }) }
    else if f3 == 0b101 { Ok(Inst::CtrlStatusReg { op: CSR::RWI, dst, src, csr }) }
    else if f3 == 0b110 { Ok(Inst::CtrlStatusReg { op: CSR::RSI, dst, src, csr }) }
    else if f3 == 0b111 { Ok(Inst::CtrlStatusReg { op: CSR::RCI, dst, src, csr }) }
    else { Err(Error::InvalidEncoding("system instruction")) }
}

/// Decoding of the 32-bit-operand ALU-with-immediate opcode (`addiw`,
/// `slliw`, `srliw`, `sraiw`).
pub open spec fn spec_parse_alu_imm_w(raw: u32) -> Result<Inst, Error> {
    let dst = spec_rd(raw);
    let src1 = spec_rs1(raw);
    let f3 = spec_funct3(raw);
    let f7 = spec_funct7(raw);
    if f3 == 0b000 {
        Ok(Inst::ALUImm { op: ALU::AddW, dst, src1, imm: spec_sign_extend((raw >> 20) & 0xfff, 12) })
    }
    else if f3 == 0b001 && f7 == 0b0000000 {
        Ok(Inst::ALUImm { op: ALU::SLLW, dst, src1, imm: spec_rs2(raw) as u32 })
    }
    else if f3 == 0b101 && f7 == 0b0000000 {
        Ok(Inst::ALUImm { op: ALU::SRLW, dst, src1, imm: spec_rs2(raw) as u32 })
    }
    else if f3 == 0b101 && f7 == 0b0100000 {
        Ok(Inst::ALUImm { op: ALU::SRAW, dst, src1, imm: spec_rs2(raw) as u32 })
    }
    else { Err(Error::Unimplemented("0b0011011 opcode space")) }
}

/// Decoding of the 32-bit-operand ALU-with-register opcode.
pub open spec fn spec_parse_alu_reg_w(raw: u32) -> Result<Inst, Error> {
    let dst = spec_rd(raw);
    let src1 = spec_rs1(raw);
    let src2 = spec_rs2(raw);
    let f3 = spec_funct3(raw);
    let f7 = spec_funct7(raw);
    if f3 == 0b000 && f7 == 0b0000000 { Ok(Inst::ALUReg { op: ALU::AddW, dst, src1, src2 }) }
    else if f3 == 0b000 && f7 == 0b0100000 { Ok(Inst::ALUReg { op: ALU::SubW, dst, src1, src2 }) }
    else if f3 == 0b001 && f7 == 0b0000000 { Ok(Inst::ALUReg { op: ALU::SLLW, dst, src1, src2 }) }
    else if f3 == 0b101 && f7 == 0b0000000 { Ok(Inst::ALUReg { op: ALU::SRLW, dst, src1, src2 }) }
    else if f3 == 0b101 && f7 == 0b0100000 { Ok(Inst::ALUReg { op: ALU::SRAW, dst, src1, src2 }) }
    else if f3 == 0b000 && f7 == 0b0000001 { Ok(Inst::ALUReg { op: ALU::MulW, dst, src1, src2 }) }
    else if f3 == 0b100 && f7 == 0b0000001 { Ok(Inst::ALUReg { op: ALU::DivW, dst, src1, src2 }) }
    else if f3 == 0b101 && f7 == 0b0000001 { Ok(Inst::ALUReg { op: ALU::DivUW, dst, src1, src2 }) }
    else if f3 == 0b110 && f7 == 0b0000001 { Ok(Inst::ALUReg { op: ALU::RemW, dst, src1, src2 }) }
    else if f3 == 0b111 && f7 == 0b0000001 { Ok(Inst::ALUReg { op: ALU::RemUW, dst, src1, src2 }) }
    else { Err(Error::Unimplemented("0b0111011 opcode space")) }
}

/// Decoding of a full 32-bit base instruction (the low two bits are
/// `0b11`), dispatching on the 7-bit opcode field.
pub open spec fn spec_parse_base(raw: u32) -> Result<Inst, Error> {
    let opcode = raw & 0x7f;
    if opcode == 0b0110111 {
        Ok(Inst::LoadUpperImmediate { dst: spec_rd(raw), imm: spec_imm_u(raw) })
    }
    else if opcode == 0b0010111 {
        Ok(Inst::AddUpperImmediateToPC { dst: spec_rd(raw), imm: spec_imm_u(raw) })
    }
    else if opcode == 0b1101111 {
        Ok(Inst::JumpAndLink { dst: spec_rd(raw), offset: spec_imm_j(raw) as i32 })
    }
    else if opcode == 0b1100111 && spec_funct3(raw) == 0 {
        Ok(Inst::JumpAndLinkReg {
            dst: spec_rd(raw),
            base: spec_rs1(raw),
            offset: spec_imm_i(raw) as i32,
        })
    }
    else if opcode == 0b1100011 { spec_parse_branch(raw) }
    else if opcode == 0b0000011 { spec_parse_load(raw) }
    else if opcode == 0b0100011 { spec_parse_store(raw) }
    else if opcode == 0b0010011 { spec_parse_alu_imm(raw) }
    else if opcode == 0b0110011 { spec_parse_alu_reg(raw) }
    else if opcode == 0b1110011 { spec_parse_system(raw) }
    else if opcode == 0b0011011 { spec_parse_alu_imm_w(raw) }
    else if opcode == 0b0111011 { spec_parse_alu_reg_w(raw) }
    else { Err(Error::InvalidEncoding("unknown opcode")) }
}

// Field extraction for the compressed (C extension) formats.

/// The three-bit register field in bits 7..9, biased by 8.
pub open spec fn spec_creg_987(raw: u16) -> Reg { (((raw >> 7) & 0b111) + 8) as Reg }

/// The three-bit register field in bits 2..4, biased by 8.
pub open spec fn spec_creg_432(raw: u16) -> Reg { (((raw >> 2) & 0b111) + 8) as Reg }

/// The five-bit register field in bits 7..11.
pub open spec fn spec_creg_5(raw: u16) -> Reg { ((raw >> 7) & 0b11111) as Reg }

/// The six-bit immediate of `C.ADDI`/`C.ADDIW`/`C.LI`/`C.ANDI`,
/// sign-extended.
pub open spec fn spec_cimm6(raw: u16) -> u32 {
    spec_sign_extend(
        (((raw & 0b0001000000000000) >> 7)
        | ((raw & 0b0000000001111100) >> 2)) as u32,
        6,
    )
}

/// The six-bit shift amount of `C.SLLI`/`C.SRLI`/`C.SRAI`.
pub open spec fn spec_cshamt(raw: u16) -> u32 {
    (((raw & 0b0001000000000000) >> 7)
    | ((raw & 0b0000000001111100) >> 2)) as u32
}

/// The nine-bit branch offset of `C.BEQZ`/`C.BNEZ`, sign-extended.
/// Its bit 0 is always zero.
pub open spec fn spec_cimm_branch(raw: u16) -> u32 {
    spec_sign_extend(
        (((raw & 0b0001000000000000) >> 4)
        | ((raw & 0b0000110000000000) >> 7)
        | ((raw & 0b0000000001100000) << 1)
        | ((raw & 0b0000000000011000) >> 2)
        | ((raw & 0b0000000000000100) << 3)) as u32,
        9,
    )
}

/// The twelve-bit jump offset of `C.J`, sign-extended. Its bit 0 is
/// always zero.
pub open spec fn spec_cimm_j(raw: u16) -> u32 {
    spec_sign_extend(
        (((raw & 0b0001000000000000) >> 1)
        | ((raw & 0b0000100000000000) >> 7)
        | ((raw & 0b0000011000000000) >> 1)
        | ((raw & 0b0000000100000000) << 2)
        | ((raw & 0b0000000010000000) >> 1)
        | ((raw & 0b0000000001000000) << 1)
        | ((raw & 0b0000000000111000) >> 2)
        | ((raw & 0b0000000000000100) << 3)) as u32,
        12,
    )
}

/// Decoding of quadrant `0b00` of the compressed encoding.
pub open spec fn spec_parse_c0(raw: u16) -> Result<Inst, Error> {
    let f3 = (raw >> 13) & 0b111;
    if raw == 0 { Err(Error::Illegal) }
    else if f3 == 0b000 {
        // C.ADDI4SPN
        Ok(Inst::ALUImm {
            op: ALU::Add,
            dst: spec_creg_432(raw),
            src1: REG_SP,
            imm: (((raw & 0b0000000000100000) >> 2)
                | ((raw & 0b0000000001000000) >> 4)
                | ((raw & 0b0000011110000000) >> 1)
                | ((raw & 0b0001100000000000) >> 7)) as u32,
        })
    }
    else if f3 == 0b001 { Err(Error::Unimplemented("C.FLD")) }
    else if f3 == 0b010 {
        // C.LW
        Ok(Inst::Load {
            dst: spec_creg_432(raw),
            width: 4,
            base: spec_creg_987(raw),
            offset: (((raw & 0b0001110000000000) >> 7)
                | ((raw & 0b0000000001000000) >> 4)
                | ((raw & 0b0000000000100000) << 1)) as i32,
            signext: true,
        })
    }
    else if f3 == 0b011 {
        // C.LD
        Ok(Inst::Load {
            dst: spec_creg_432(raw),
            width: 8,
            base: spec_creg_987(raw),
            offset: (((raw & 0b0001110000000000) >> 7)
                | ((raw & 0b0000000001100000) << 1)) as i32,
            signext: true,
        })
    }
    else if f3 == 0b100 { Err(Error::InvalidEncoding("C extension reserved space")) }
    else if f3 == 0b101 { Err(Error::Unimplemented("C.FSD")) }
    else if f3 == 0b110 {
        // C.SW
        Ok(Inst::Store {
            src: spec_creg_432(raw),
            width: 4,
            base: spec_creg_987(raw),
            offset: (((raw & 0b0001110000000000) >> 7)
                | ((raw & 0b0000000001000000) >> 4)
                | ((raw & 0b0000000000100000) << 1)) as i32,
        })
    }
    else {
        // C.SD
        Ok(Inst::Store {
            src: spec_creg_432(raw),
            width: 8,
            base: spec_creg_987(raw),
            offset: (((raw & 0b0001110000000000) >> 7)
                | ((raw & 0b0000000001100000) << 1)) as i32,
        })
    }
}

/// Decoding of quadrant `0b01` of the compressed encoding.
pub open spec fn spec_parse_c1(raw: u16) -> Result<Inst, Error> {
    let f3 = (raw >> 13) & 0b111;
    if f3 == 0b000 {
        // C.ADDI
        Ok(Inst::ALUImm {
            op: ALU::Add,
            dst: spec_creg_5(raw),
            src1: spec_creg_5(raw),
            imm: spec_cimm6(raw),
        })
    }
    else if f3 == 0b001 {
        // C.ADDIW
        Ok(Inst::ALUImm {
            op: ALU::AddW,
            dst: spec_creg_5(raw),
            src1: spec_creg_5(raw),
            imm: spec_cimm6(raw),
        })
    }
    else if f3 == 0b010 {
        // C.LI
        Ok(Inst::ALUImm {
            op: ALU::Add,
            dst: spec_creg_5(raw),
            src1: REG_ZR,
            imm: spec_cimm6(raw),
        })
    }
    else if f3 == 0b011 {
        let rd = spec_creg_5(raw);
        if rd == 2 {
            // C.ADDI16SP
            Ok(Inst::ALUImm {
                op: ALU::Add,
                dst: REG_SP,
                src1: REG_SP,
                imm: spec_sign_extend(
                    (((raw & 0b0001000000000000) >> 3)
                    | ((raw & 0b0000000001000000) >> 2)
                    | ((raw & 0b0000000000100000) << 1)
                    | ((raw & 0b0000000000011000) << 4)
                    | ((raw & 0b0000000000000100) << 3)) as u32,
                    10,
                ),
            })
        } else if rd == 0 {
            Err(Error::InvalidEncoding("C extension reserved space"))
        } else {
            // C.LUI
            Ok(Inst::LoadUpperImmediate {
                dst: rd,
                imm: spec_sign_extend(
                    ((raw as u32 & 0b0001000000000000) << 5)
                    | ((raw as u32 & 0b0000000001111100) << 10),
                    18,
                ),
            })
        }
    }
    else if f3 == 0b100 {
        let kind = (raw >> 10) & 0b11;
        let rd = spec_creg_987(raw);
        if kind == 0b00 {
            // C.SRLI
            Ok(Inst::ALUImm { op: ALU::SRL, dst: rd, src1: rd, imm: spec_cshamt(raw) })
        } else if kind == 0b01 {
            // C.SRAI
            Ok(Inst::ALUImm { op: ALU::SRA, dst: rd, src1: rd, imm: spec_cshamt(raw) })
        } else if kind == 0b10 {
            // C.ANDI
            Ok(Inst::ALUImm { op: ALU::And, dst: rd, src1: rd, imm: spec_cimm6(raw) })
        } else {
            let bit12 = (raw >> 12) & 0b1;
            let f2 = (raw >> 5) & 0b11;
            let rs2 = spec_creg_432(raw);
            if bit12 == 0b0 && f2 == 0b00 {
                Ok(Inst::ALUReg { op: ALU::Sub, dst: rd, src1: rd, src2: rs2 })
            } else if bit12 == 0b0 && f2 == 0b01 {
                Ok(Inst::ALUReg { op: ALU::XOr, dst: rd, src1: rd, src2: rs2 })
            } else if bit12 == 0b0 && f2 == 0b10 {
                Ok(Inst::ALUReg { op: ALU::Or, dst: rd, src1: rd, src2: rs2 })
            } else if bit12 == 0b0 && f2 == 0b11 {
                Ok(Inst::ALUReg { op: ALU::And, dst: rd, src1: rd, src2: rs2 })
            } else if bit12 == 0b1 && f2 == 0b00 {
                Ok(Inst::ALUReg { op: ALU::SubW, dst: rd, src1: rd, src2: rs2 })
            } else if bit12 == 0b1 && f2 == 0b01 {
                Ok(Inst::ALUReg { op: ALU::AddW, dst: rd, src1: rd, src2: rs2 })
            } else {
                Err(Error::InvalidEncoding("C extension reserved space"))
            }
        }
    }
    else if f3 == 0b101 {
        // C.J
        Ok(Inst::JumpAndLink { dst: REG_ZR, offset: spec_cimm_j(raw) as i32 })
    }
    else if f3 == 0b110 {
        // C.BEQZ
        Ok(Inst::Branch {
            pred: Predicate::EQ,
            src1: spec_creg_987(raw),
            src2: REG_ZR,
            offset: spec_cimm_branch(raw) as i32,
        })
    }
    else {
        // C.BNEZ
        Ok(Inst::Branch {
            pred: Predicate::NE,
            src1: spec_creg_987(raw),
            src2: REG_ZR,
            offset: spec_cimm_branch(raw) as i32,
        })
    }
}

/// Decoding of quadrant `0b10` of the compressed encoding.
pub open spec fn spec_parse_c2(raw: u16) -> Result<Inst, Error> {
    let f3 = (raw >> 13) & 0b111;
    if f3 == 0b000 {
        // C.SLLI
        Ok(Inst::ALUImm {
            op: ALU::SLL,
            dst: spec_creg_5(raw),
            src1: spec_creg_5(raw),
            imm: spec_cshamt(raw),
        })
    }
    else if f3 == 0b001 { Err(Error::Unimplemented("C.FLDSP")) }
    else if f3 == 0b010 {
        // C.LWSP
        Ok(Inst::Load {
            dst: spec_creg_5(raw),
            width: 4,
            base: REG_SP,
            offset: (((raw & 0b0001000000000000) >> 7)
                | ((raw & 0b0000000001110000) >> 2)
                | ((raw & 0b0000000000001100) << 4)) as i32,
            signext: true,
        })
    }
    else if f3 == 0b011 {
        // C.LDSP
        Ok(Inst::Load {
            dst: spec_creg_5(raw),
            width: 8,
            base: REG_SP,
            offset: (((raw & 0b0001000000000000) >> 7)
                | ((raw & 0b0000000001100000) >> 2)
                | ((raw & 0b0000000000011100) << 4)) as i32,
            signext: true,
        })
    }
    else if f3 == 0b100 {
        let bit12 = (raw >> 12) & 1;
        let r1 = ((raw >> 7) & 0x1f) as Reg;
        let r2 = ((raw >> 2) & 0x1f) as Reg;
        if bit12 == 0 && r1 != 0 && r2 == 0 {
            // C.JR
            Ok(Inst::JumpAndLinkReg { dst: REG_ZR, base: r1, offset: 0 })
        } else if bit12 == 0 && r1 != 0 && r2 != 0 {
            // C.MV
            Ok(Inst::ALUReg { op: ALU::Add, dst: r1, src1: REG_ZR, src2: r2 })
        } else if bit12 == 1 && r1 == 0 && r2 == 0 {
            Ok(Inst::EBreak { privilege: 0 })
        } else if bit12 == 1 && r1 != 0 && r2 == 0 {
            // C.JALR
            Ok(Inst::JumpAndLinkReg { dst: REG_RA, base: r1, offset: 0 })
        } else if bit12 == 1 && r1 != 0 && r2 != 0 {
            // C.ADD
            Ok(Inst::ALUReg { op: ALU::Add, dst: r1, src1: r1, src2: r2 })
        } else {
            Err(Error::InvalidEncoding("C extension reserved space"))
        }
    }
    else if f3 == 0b101 { Err(Error::Unimplemented("C.FSDSP")) }
    else if f3 == 0b110 {
        // C.SWSP
        Ok(Inst::Store {
            src: ((raw >> 2) & 0x1f) as Reg,
            width: 4,
            base: REG_SP,
            offset: (((raw & 0b0001111000000000) >> 7)
                | ((raw & 0b0000000110000000) >> 1)) as i32,
        })
    }
    else {
        // C.SDSP
        Ok(Inst::Store {
            src: ((raw >> 2) & 0x1f) as Reg,
            width: 8,
            base: REG_SP,
            offset: (((raw & 0b0001110000000000) >> 7)
                | ((raw & 0b0000001110000000) >> 1)) as i32,
        })
    }
}

/// Decoding of a 16-bit compressed instruction (the low two bits are
/// not `0b11`). A word whose low two bits are `0b11` is not compressed
/// and is rejected.
pub open spec fn spec_parse_compressed(raw: u16) -> Result<Inst, Error> {
    let quadrant = raw & 0b11;
    if quadrant == 0b00 { spec_parse_c0(raw) }
    else if quadrant == 0b01 { spec_parse_c1(raw) }
    else if quadrant == 0b10 { spec_parse_c2(raw) }
    else { Err(Error::InvalidEncoding("not a compressed instruction")) }
}

/// Decoding of a code word: a compressed instruction of size 2 when the
/// low two bits are not `0b11`, otherwise a base instruction of size 4.
pub open spec fn spec_parse_instruction(raw: u32) -> Result<(Inst, usize), Error> {
    if raw & 0b11 != 0b11 {
        match spec_parse_compressed(raw as u16) {
            Ok(inst) => Ok((inst, 2)),
            Err(e) => Err(e),
        }
    } else {
        match spec_parse_base(raw) {
            Ok(inst) => Ok((inst, 4)),
            Err(e) => Err(e),
        }
    }
}

// The executable decoder. Each function computes exactly the value its
// spec counterpart describes.

fn get_rd(raw: u32) -> (r: Reg)
    ensures r == spec_rd(raw), r < 32,
{
    proof {
        assert(((raw >> 7) & 0x1f) < 32) by (bit_vector);
    }
    ((raw >> 7) & 0x1f) as Reg
}

fn get_rs1(raw: u32) -> (r: Reg)
    ensures r == spec_rs1(raw), r < 32,
{
    proof {
        assert(((raw >> 15) & 0x1f) < 32) by (bit_vector);
    }
    ((raw >> 15) & 0x1f) as Reg
}

fn get_rs2(raw: u32) -> (r: Reg)
    ensures r == spec_rs2(raw), r < 32,
{
    proof {
        assert(((raw >> 20) & 0x1f) < 32) by (bit_vector);
    }
    ((raw >> 20) & 0x1f) as Reg
}

fn get_funct3(raw: u32) -> (r: u32)
    ensures r == spec_funct3(raw), r < 8,
{
    proof {
        assert(((raw >> 12) & 0x7) < 8) by (bit_vector);
    }
    (raw >> 12) & 0x7
}

fn get_funct7(raw: u32) -> (r: u32)
    ensures r == spec_funct7(raw), r < 128,
{
    proof {
        assert(((raw >> 25) & 0x7f) < 128) by (bit_vector);
    }
    (raw >> 25) & 0x7f
}

fn creg_987(raw: u16) -> (r: Reg)
    ensures r == spec_creg_987(raw), 8 <= r < 16,
{
    proof {
        assert(((raw >> 7) & 0b111) <= 7) by (bit_vector);
    }
    let t: u16 = (raw >> 7) & 0b111;
    (t + 8) as Reg
}

fn creg_432(raw: u16) -> (r: Reg)
    ensures r == spec_creg_432(raw), 8 <= r < 16,
{
    proof {
        assert(((raw >> 2) & 0b111) <= 7) by (bit_vector);
    }
    let t: u16 = (raw >> 2) & 0b111;
    (t + 8) as Reg
}

fn creg_5(raw: u16) -> (r: Reg)
    ensures r == spec_creg_5(raw), r < 32,
{
    proof {
        assert(((raw >> 7) & 0b11111) < 32) by (bit_vector);
    }
    ((raw >> 7) & 0b11111) as Reg
}

fn parse_base(raw: u32) -> (r: Result<Inst, Error>)
    ensures r == spec_parse_base(raw),
{
    let opcode: u32 = raw & 0x7f;
    if opcode == 0b0110111 {
        Ok(Inst::LoadUpperImmediate { dst: get_rd(raw), imm: raw & 0xfffff000 })
    }
    else if opcode == 0b0010111 {
        Ok(Inst::AddUpperImmediateToPC { dst: get_rd(raw), imm: raw & 0xfffff000 })
    }
    else if opcode == 0b1101111 {
        Ok(Inst::JumpAndLink {
            dst: get_rd(raw),
            offset: sign_extend(
                ((raw & 0x80000000) >> 11)
                | ((raw & 0x7fe00000) >> 20)
                | ((raw & 0x00100000) >> 9)
                | (raw & 0x000ff000),
                21,
            ) as i32,
        })
    }
    else if opcode == 0b1100111 && get_funct3(raw) == 0 {
        Ok(Inst::JumpAndLinkReg {
            dst: get_rd(raw),
            base: get_rs1(raw),
            offset: sign_extend((raw & 0xfff00000) >> 20, 12) as i32,
        })
    }
    else if opcode == 0b1100011 { parse_branch(raw) }
    else if opcode == 0b0000011 { parse_load(raw) }
    else if opcode == 0b0100011 { parse_store(raw) }
    else if opcode == 0b0010011 { parse_alu_imm(raw) }
    else if opcode == 0b0110011 { parse_alu_reg(raw) }
    else if opcode == 0b1110011 { parse_system(raw) }
    else if opcode == 0b0011011 { parse_alu_imm_w(raw) }
    else if opcode == 0b0111011 { parse_alu_reg_w(raw) }
    else { Err(Error::InvalidEncoding("unknown opcode")) }
}

fn parse_branch(raw: u32) -> (r: Result<Inst, Error>)
    ensures r == spec_parse_branch(raw),
{
    let f3: u32 = get_funct3(raw);
    if f3 == 0b000 || f3 == 0b001 || f3 == 0b100 || f3 == 0b101 || f3 == 0b110 || f3 == 0b111 {
        let pred = if f3 == 0b000 { Predicate::EQ }
            else if f3 == 0b001 { Predicate::NE }
            else if f3 == 0b100 { Predicate::LT }
            else if f3 == 0b101 { Predicate::GE }
            else if f3 == 0b110 { Predicate::LTU }
            else { Predicate::GEU };
        Ok(Inst::Branch {
            pred,
            src1: get_rs1(raw),
            src2: get_rs2(raw),
            offset: sign_extend(
                ((raw & 0x80000000) >> 19)
                | ((raw & 0x7e000000) >> 20)
                | ((raw & 0x00000f00) >> 7)
                | ((raw & 0x00000080) << 4),
                13,
            ) as i32,
        })
    } else {
        Err(Error::InvalidEncoding("unknown predicate for branch"))
    }
}

fn parse_load(raw: u32) -> (r: Result<Inst, Error>)
    ensures r == spec_parse_load(raw),
{
    let f3: u32 = get_funct3(raw);
    if f3 <= 0b110 {
        let width: u8 = if f3 == 0b000 || f3 == 0b100 { 1 }
            else if f3 == 0b001 || f3 == 0b101 { 2 }
            else if f3 == 0b010 || f3 == 0b110 { 4 }
            else { 8 };
        let signext: bool = f3 <= 0b011;
        Ok(Inst::Load {
            dst: get_rd(raw),
            width,
            base: get_rs1(raw),
            offset: sign_extend((raw & 0xfff00000) >> 20, 12) as i32,
            signext,
        })
    } else {
        Err(Error::InvalidEncoding("invalid load width/sign extension"))
    }
}

fn parse_store(raw: u32) -> (r: Result<Inst, Error>)
    ensures r == spec_parse_store(raw),
{
    let f3: u32 = get_funct3(raw);
    if f3 <= 0b011 {
        let width: u8 = if f3 == 0b000 { 1 }
            else if f3 == 0b001 { 2 }
            else if f3 == 0b010 { 4 }
            else { 8 };
        Ok(Inst::Store {
            src: get_rs2(raw),
            width,
            base: get_rs1(raw),
            offset: sign_extend(((raw & 0xfe000000) >> 20) | ((raw & 0x00000f80) >> 7), 12) as i32,
        })
    } else {
        Err(Error::InvalidEncoding("invalid store length"))
    }
}

fn parse_alu_imm(raw: u32) -> (r: Result<Inst, Error>)
    ensures r == spec_parse_alu_imm(raw),
{
    let dst: Reg = get_rd(raw);
    let src1: Reg = get_rs1(raw);
    let imm12: u32 = sign_extend((raw & 0xfff00000) >> 20, 12);
    let f3: u32 = get_funct3(raw);
    let funct7: u32 = get_funct7(raw) & !1u32;
    if f3 == 0b000 { Ok(Inst::ALUImm { op: ALU::Add, dst, src1, imm: imm12 }) }
    else if f3 == 0b010 { Ok(Inst::ALUImm { op: ALU::SLT, dst, src1, imm: imm12 }) }
    else if f3 == 0b011 { Ok(Inst::ALUImm { op: ALU::SLTU, dst, src1, imm: imm12 }) }
    else if f3 == 0b100 { Ok(Inst::ALUImm { op: ALU::XOr, dst, src1, imm: imm12 }) }
    else if f3 == 0b110 { Ok(Inst::ALUImm { op: ALU::Or, dst, src1, imm: imm12 }) }
    else if f3 == 0b111 { Ok(Inst::ALUImm { op: ALU::And, dst, src1, imm: imm12 }) }
    else if f3 == 0b001 && funct7 == 0b0000000 {
        Ok(Inst::ALUImm { op: ALU::SLL, dst, src1, imm: (raw >> 20) & 0x3f })
    }
    else if f3 == 0b101 && funct7 == 0b0000000 {
        Ok(Inst::ALUImm { op: ALU::SRL, dst, src1, imm: (raw >> 20) & 0x3f })
    }
    else if f3 == 0b101 && funct7 == 0b0100000 {
        Ok(Inst::ALUImm { op: ALU::SRA, dst, src1, imm: (raw >> 20) & 0x3f })
    }
    else { Err(Error::Unimplemented("ALU instruction extensions")) }
}

fn parse_alu_reg(raw: u32) -> (r: Result<Inst, Error>)
    ensures r == spec_parse_alu_reg(raw),
{
    let dst: Reg = get_rd(raw);
    let src1: Reg = get_rs1(raw);
    let src2: Reg = get_rs2(raw);
    let f3: u32 = get_funct3(raw);
    let f7: u32 = get_funct7(raw);
    if f3 == 0b000 && f7 == 0b0000000 { Ok(Inst::ALUReg { op: ALU::Add, dst, src1, src2 }) }
    else if f3 == 0b000 && f7 == 0b0100000 { Ok(Inst::ALUReg { op: ALU::Sub, dst, src1, src2 }) }
    else if f3 == 0b000 && f7 == 0b0000001 { Ok(Inst::ALUReg { op: ALU::Mul, dst, src1, src2 }) }
    else if f3 == 0b001 && f7 == 0b0000000 { Ok(Inst::ALUReg { op: ALU::SLL, dst, src1, src2 }) }
    else if f3 == 0b001 && f7 == 0b0000001 { Err(Error::Unimplemented("mulh")) }
    else if f3 == 0b010 && f7 == 0b0000000 { Ok(Inst::ALUReg { op: ALU::SLT, dst, src1, src2 }) }
    else if f3 == 0b010 && f7 == 0b0000001 { Err(Error::Unimplemented("mulhsu")) }
    else if f3 == 0b011 && f7 == 0b0000000 { Ok(Inst::ALUReg { op: ALU::SLTU, dst, src1, src2 }) }
    else if f3 == 0b011 && f7 == 0b0000001 { Err(Error::Unimplemented("mulhu")) }
    else if f3 == 0b100 && f7 == 0b0000000 { Ok(Inst::ALUReg { op: ALU::XOr, dst, src1, src2 }) }
    else if f3 == 0b100 && f7 == 0b0000001 { Ok(Inst::ALUReg { op: ALU::Div, dst, src1, src2 }) }
    else if f3 == 0b101 && f7 == 0b0000000 { Ok(Inst::ALUReg { op: ALU::SRL, dst, src1, src2 }) }
    else if f3 == 0b101 && f7 == 0b0000001 { Ok(Inst::ALUReg { op: ALU::DivU, dst, src1, src2 }) }
    else if f3 == 0b101 && f7 == 0b0100000 { Ok(Inst::ALUReg { op: ALU::SRA, dst, src1, src2 }) }
    else if f3 == 0b110 && f7 == 0b0000000 { Ok(Inst::ALUReg { op: ALU::Or, dst, src1, src2 }) }
    else if f3 == 0b110 && f7 == 0b0000001 { Ok(Inst::ALUReg { op: ALU::Rem, dst, src1, src2 }) }
    else if f3 == 0b111 && f7 == 0b0000000 { Ok(Inst::ALUReg { op: ALU::And, dst, src1, src2 }) }
    else if f3 == 0b111 && f7 == 0b0000001 { Ok(Inst::ALUReg { op: ALU::RemU, dst, src1, src2 }) }
    else { Err(Error::Unimplemented("ALU instruction extensions")) }
}

fn parse_system(raw: u32) -> (r: Result<Inst, Error>)
    ensures r == spec_parse_system(raw),
{
    let dst: Reg = get_rd(raw);
    let src: Reg = get_rs1(raw);
    let csr: u16 = ((raw & 0xfff00000) >> 20) as u16;
    let f3: u32 = get_funct3(raw);
    if f3 == 0b000 && dst == 0 && src == 0 && csr == 0 { Ok(Inst::ECall { privilege: 0 }) }
    else if f3 == 0b000 && dst == 0 && src == 0 && csr == 1 { Ok(Inst::EBreak { privilege: 0 }) }
    else if f3 == 0b001 { Ok(Inst::CtrlStatusReg { op: CSR::RW, dst, src, csr }) }
    else if f3 == 0b010 { Ok(Inst::CtrlStatusReg { op: CSR::RS, dst, src, csr }) }
    else if f3 == 0b011 { Ok(Inst::CtrlStatusReg { op: CSR::RC, dst, src, csr }) }
    else if f3 == 0b101 { Ok(Inst::CtrlStatusReg { op: CSR::RWI, dst, src, csr }) }
    else if f3 == 0b110 { Ok(Inst::CtrlStatusReg { op: CSR::RSI, dst, src, csr }) }
    else if f3 == 0b111 { Ok(Inst::CtrlStatusReg { op: CSR::RCI, dst, src, csr }) }
    else { Err(Error::InvalidEncoding("system instruction")) }
}

fn parse_alu_imm_w(raw: u32) -> (r: Result<Inst, Error>)
    ensures r == spec_parse_alu_imm_w(raw),
{
    let dst: Reg = get_rd(raw);
    let src1: Reg = get_rs1(raw);
    let f3: u32 = get_funct3(raw);
    let f7: u32 = get_funct7(raw);
    if f3 == 0b000 {
        Ok(Inst::ALUImm { op: ALU::AddW, dst, src1, imm: sign_extend((raw >> 20) & 0xfff, 12) })
    }
    else if f3 == 0b001 && f7 == 0b0000000 {
        Ok(Inst::ALUImm { op: ALU::SLLW, dst, src1, imm: get_rs2(raw) as u32 })
    }
    else if f3 == 0b101 && f7 == 0b0000000 {
        Ok(Inst::ALUImm { op: ALU::SRLW, dst, src1, imm: get_rs2(raw) as u32 })
    }
    else if f3 == 0b101 && f7 == 0b0100000 {
        Ok(Inst::ALUImm { op: ALU::SRAW, dst, src1, imm: get_rs2(raw) as u32 })
    }
    else { Err(Error::Unimplemented("0b0011011 opcode space")) }
}

fn parse_alu_reg_w(raw: u32) -> (r: Result<Inst, Error>)
    ensures r == spec_parse_alu_reg_w(raw),
{
    let dst: Reg = get_rd(raw);
    let src1: Reg = get_rs1(raw);
    let src2: Reg = get_rs2(raw);
    let f3: u32 = get_funct3(raw);
    let f7: u32 = get_funct7(raw);
    if f3 == 0b000 && f7 == 0b0000000 { Ok(Inst::ALUReg { op: ALU::AddW, dst, src1, src2 }) }
    else if f3 == 0b000 && f7 == 0b0100000 { Ok(Inst::ALUReg { op: ALU::SubW, dst, src1, src2 }) }
    else if f3 == 0b001 && f7 == 0b0000000 { Ok(Inst::ALUReg { op: ALU::SLLW, dst, src1, src2 }) }
    else if f3 == 0b101 && f7 == 0b0000000 { Ok(Inst::ALUReg { op: ALU::SRLW, dst, src1, src2 }) }
    else if f3 == 0b101 && f7 == 0b0100000 { Ok(Inst::ALUReg { op: ALU::SRAW, dst, src1, src2 }) }
    else if f3 == 0b000 && f7 == 0b0000001 { Ok(Inst::ALUReg { op: ALU::MulW, dst, src1, src2 }) }
    else if f3 == 0b100 && f7 == 0b0000001 { Ok(Inst::ALUReg { op: ALU::DivW, dst, src1, src2 }) }
    else if f3 == 0b101 && f7 == 0b0000001 { Ok(Inst::ALUReg { op: ALU::DivUW, dst, src1, src2 }) }
    else if f3 == 0b110 && f7 == 0b0000001 { Ok(Inst::ALUReg { op: ALU::RemW, dst, src1, src2 }) }
    else if f3 == 0b111 && f7 == 0b0000001 { Ok(Inst::ALUReg { op: ALU::RemUW, dst, src1, src2 }) }
    else { Err(Error::Unimplemented("0b0111011 opcode space")) }
}

fn parse_c0(raw: u16) -> (r: Result<Inst, Error>)
    ensures r == spec_parse_c0(raw),
{
    let f3: u16 = (raw >> 13) & 0b111;
    if raw == 0 { Err(Error::Illegal) }
    else if f3 == 0b000 {
        Ok(Inst::ALUImm {
            op: ALU::Add,
            dst: creg_432(raw),
            src1: REG_SP,
            imm: (((raw & 0b0000000000100000) >> 2)
                | ((raw & 0b0000000001000000) >> 4)
                | ((raw & 0b0000011110000000) >> 1)
                | ((raw & 0b0001100000000000) >> 7)) as u32,
        })
    }
    else if f3 == 0b001 { Err(Error::Unimplemented("C.FLD")) }
    else if f3 == 0b010 {
        Ok(Inst::Load {
            dst: creg_432(raw),
            width: 4,
            base: creg_987(raw),
            offset: (((raw & 0b0001110000000000) >> 7)
                | ((raw & 0b0000000001000000) >> 4)
                | ((raw & 0b0000000000100000) << 1)) as i32,
            signext: true,
        })
    }
    else if f3 == 0b011 {
        Ok(Inst::Load {
            dst: creg_432(raw),
            width: 8,
            base: creg_987(raw),
            offset: (((raw & 0b0001110000000000) >> 7)
                | ((raw & 0b0000000001100000) << 1)) as i32,
            signext: true,
        })
    }
    else if f3 == 0b100 { Err(Error::InvalidEncoding("C extension reserved space")) }
    else if f3 == 0b101 { Err(Error::Unimplemented("C.FSD")) }
    else if f3 == 0b110 {
        Ok(Inst::Store {
            src: creg_432(raw),
            width: 4,
            base: creg_987(raw),
            offset: (((raw & 0b0001110000000000) >> 7)
                | ((raw & 0b0000000001000000) >> 4)
                | ((raw & 0b0000000000100000) << 1)) as i32,
        })
    }
    else {
        Ok(Inst::Store {
            src: creg_432(raw),
            width: 8,
            base: creg_987(raw),
            offset: (((raw & 0b0001110000000000) >> 7)
                | ((raw & 0b0000000001100000) << 1)) as i32,
        })
    }
}

fn cimm6(raw: u16) -> (r: u32)
    ensures r == spec_cimm6(raw),
{
    sign_extend(
        (((raw & 0b0001000000000000) >> 7)
        | ((raw & 0b0000000001111100) >> 2)) as u32,
        6,
    )
}

fn cshamt(raw: u16) -> (r: u32)
    ensures r == spec_cshamt(raw),
{
    (((raw & 0b0001000000000000) >> 7)
    | ((raw & 0b0000000001111100) >> 2)) as u32
}

fn parse_c1(raw: u16) -> (r: Result<Inst, Error>)
    ensures r == spec_parse_c1(raw),
{
    let f3: u16 = (raw >> 13) & 0b111;
    if f3 == 0b000 {
        let rd: Reg = creg_5(raw);
        Ok(Inst::ALUImm { op: ALU::Add, dst: rd, src1: rd, imm: cimm6(raw) })
    }
    else if f3 == 0b001 {
        let rd: Reg = creg_5(raw);
        Ok(Inst::ALUImm { op: ALU::AddW, dst: rd, src1: rd, imm: cimm6(raw) })
    }
    else if f3 == 0b010 {
        Ok(Inst::ALUImm { op: ALU::Add, dst: creg_5(raw), src1: REG_ZR, imm: cimm6(raw) })
    }
    else if f3 == 0b011 {
        let rd: Reg = creg_5(raw);
        if rd == 2 {
            Ok(Inst::ALUImm {
                op: ALU::Add,
                dst: REG_SP,
                src1: REG_SP,
                imm: sign_extend(
                    (((raw & 0b0001000000000000) >> 3)
                    | ((raw & 0b0000000001000000) >> 2)
                    | ((raw & 0b0000000000100000) << 1)
                    | ((raw & 0b0000000000011000) << 4)
                    | ((raw & 0b0000000000000100) << 3)) as u32,
                    10,
                ),
            })
        } else if rd == 0 {
            Err(Error::InvalidEncoding("C extension reserved space"))
        } else {
            Ok(Inst::LoadUpperImmediate {
                dst: rd,
                imm: sign_extend(
                    ((raw as u32 & 0b0001000000000000) << 5)
                    | ((raw as u32 & 0b0000000001111100) << 10),
                    18,
                ),
            })
        }
    }
    else if f3 == 0b100 {
        let kind: u16 = (raw >> 10) & 0b11;
        let rd: Reg = creg_987(raw);
        if kind == 0b00 {
            Ok(Inst::ALUImm { op: ALU::SRL, dst: rd, src1: rd, imm: cshamt(raw) })
        } else if kind == 0b01 {
            Ok(Inst::ALUImm { op: ALU::SRA, dst: rd, src1: rd, imm: cshamt(raw) })
        } else if kind == 0b10 {
            Ok(Inst::ALUImm { op: ALU::And, dst: rd, src1: rd, imm: cimm6(raw) })
        } else {
            let bit12: u16 = (raw >> 12) & 0b1;
            let f2: u16 = (raw >> 5) & 0b11;
            let rs2: Reg = creg_432(raw);
            if bit12 == 0b0 && f2 == 0b00 {
                Ok(Inst::ALUReg { op: ALU::Sub, dst: rd, src1: rd, src2: rs2 })
            } else if bit12 == 0b0 && f2 == 0b01 {
                Ok(Inst::ALUReg { op: ALU::XOr, dst: rd, src1: rd, src2: rs2 })
            } else if bit12 == 0b0 && f2 == 0b10 {
                Ok(Inst::ALUReg { op: ALU::Or, dst: rd, src1: rd, src2: rs2 })
            } else if bit12 == 0b0 && f2 == 0b11 {
                Ok(Inst::ALUReg { op: ALU::And, dst: rd, src1: rd, src2: rs2 })
            } else if bit12 == 0b1 && f2 == 0b00 {
                Ok(Inst::ALUReg { op: ALU::SubW, dst: rd, src1: rd, src2: rs2 })
            } else if bit12 == 0b1 && f2 == 0b01 {
                Ok(Inst::ALUReg { op: ALU::AddW, dst: rd, src1: rd, src2: rs2 })
            } else {
                Err(Error::InvalidEncoding("C extension reserved space"))
            }
        }
    }
    else if f3 == 0b101 {
        Ok(Inst::JumpAndLink {
            dst: REG_ZR,
            offset: sign_extend(
                (((raw & 0b0001000000000000) >> 1)
                | ((raw & 0b0000100000000000) >> 7)
                | ((raw & 0b0000011000000000) >> 1)
                | ((raw & 0b0000000100000000) << 2)
                | ((raw & 0b0000000010000000) >> 1)
                | ((raw & 0b0000000001000000) << 1)
                | ((raw & 0b0000000000111000) >> 2)
                | ((raw & 0b0000000000000100) << 3)) as u32,
                12,
            ) as i32,
        })
    }
    else if f3 == 0b110 {
        Ok(Inst::Branch {
            pred: Predicate::EQ,
            src1: creg_987(raw),
            src2: REG_ZR,
            offset: cimm_branch(raw) as i32,
        })
    }
    else {
        Ok(Inst::Branch {
            pred: Predicate::NE,
            src1: creg_987(raw),
            src2: REG_ZR,
            offset: cimm_branch(raw) as i32,
        })
    }
}

fn cimm_branch(raw: u16) -> (r: u32)
    ensures r == spec_cimm_branch(raw),
{
    sign_extend(
        (((raw & 0b0001000000000000) >> 4)
        | ((raw & 0b0000110000000000) >> 7)
        | ((raw & 0b0000000001100000) << 1)
        | ((raw & 0b0000000000011000) >> 2)
        | ((raw & 0b0000000000000100) << 3)) as u32,
        9,
    )
}

fn parse_c2(raw: u16) -> (r: Result<Inst, Error>)
    ensures r == spec_parse_c2(raw),
{
    let f3: u16 = (raw >> 13) & 0b111;
    if f3 == 0b000 {
        let rd: Reg = creg_5(raw);
        Ok(Inst::ALUImm { op: ALU::SLL, dst: rd, src1: rd, imm: cshamt(raw) })
    }
    else if f3 == 0b001 { Err(Error::Unimplemented("C.FLDSP")) }
    else if f3 == 0b010 {
        Ok(Inst::Load {
            dst: creg_5(raw),
            width: 4,
            base: REG_SP,
            offset: (((raw & 0b0001000000000000) >> 7)
                | ((raw & 0b0000000001110000) >> 2)
                | ((raw & 0b0000000000001100) << 4)) as i32,
            signext: true,
        })
    }
    else if f3 == 0b011 {
        Ok(Inst::Load {
            dst: creg_5(raw),
            width: 8,
            base: REG_SP,
            offset: (((raw & 0b0001000000000000) >> 7)
                | ((raw & 0b0000000001100000) >> 2)
                | ((raw & 0b0000000000011100) << 4)) as i32,
            signext: true,
        })
    }
    else if f3 == 0b100 {
        proof {
            assert(((raw >> 7) & 0x1f) < 32 && ((raw >> 2) & 0x1f) < 32) by (bit_vector);
        }
        let bit12: u16 = (raw >> 12) & 1;
        let r1: Reg = ((raw >> 7) & 0x1f) as Reg;
        let r2: Reg = ((raw >> 2) & 0x1f) as Reg;
        if bit12 == 0 && r1 != 0 && r2 == 0 {
            Ok(Inst::JumpAndLinkReg { dst: REG_ZR, base: r1, offset: 0 })
        } else if bit12 == 0 && r1 != 0 && r2 != 0 {
            Ok(Inst::ALUReg { op: ALU::Add, dst: r1, src1: REG_ZR, src2: r2 })
        } else if bit12 == 1 && r1 == 0 && r2 == 0 {
            Ok(Inst::EBreak { privilege: 0 })
        } else if bit12 == 1 && r1 != 0 && r2 == 0 {
            Ok(Inst::JumpAndLinkReg { dst: REG_RA, base: r1, offset: 0 })
        } else if bit12 == 1 && r1 != 0 && r2 != 0 {
            Ok(Inst::ALUReg { op: ALU::Add, dst: r1, src1: r1, src2: r2 })
        } else {
            Err(Error::InvalidEncoding("C extension reserved space"))
        }
    }
    else if f3 == 0b101 { Err(Error::Unimplemented("C.FSDSP")) }
    else if f3 == 0b110 {
        proof {
            assert(((raw >> 2) & 0x1f) < 32) by (bit_vector);
        }
        Ok(Inst::Store {
            src: ((raw >> 2) & 0x1f) as Reg,
            width: 4,
            base: REG_SP,
            offset: (((raw & 0b0001111000000000) >> 7)
                | ((raw & 0b0000000110000000) >> 1)) as i32,
        })
    }
    else {
        proof {
            assert(((raw >> 2) & 0x1f) < 32) by (bit_vector);
        }
        Ok(Inst::Store {
            src: ((raw >> 2) & 0x1f) as Reg,
            width: 8,
            base: REG_SP,
            offset: (((raw & 0b0001110000000000) >> 7)
                | ((raw & 0b0000001110000000) >> 1)) as i32,
        })
    }
}

/// Decode a 16-bit compressed instruction.
pub fn parse_compressed_instruction(raw: u16) -> (r: Result<Inst, Error>)
    ensures
        r == spec_parse_compressed(raw),
{
    let quadrant: u16 = raw & 0b11;
    if quadrant == 0b00 { parse_c0(raw) }
    else if quadrant == 0b01 { parse_c1(raw) }
    else if quadrant == 0b10 { parse_c2(raw) }
    else { Err(Error::InvalidEncoding("not a compressed instruction")) }
}

/// Decode a code word into an instruction and its encoded size in
/// bytes (2 for compressed, 4 for base instructions).
pub fn parse_instruction(raw: u32) -> (r: Result<(Inst, usize), Error>)
    ensures
        r == spec_parse_instruction(raw),
{
    if raw & 0b11 != 0b11 {
        match parse_compressed_instruction(raw as u16) {
            Ok(inst) => Ok((inst, 2)),
            Err(e) => Err(e),
        }
    } else {
        match parse_base(raw) {
            Ok(inst) => Ok((inst, 4)),
            Err(e) => Err(e),
        }
    }
}

impl Inst {
    /// Decode a code word. The decoder is a pure function of the word:
    /// equal inputs yield equal outputs, as the exact postcondition
    /// states.
    pub fn parse(raw: u32) -> (r: Result<(Inst, usize), Error>)
        ensures
            r == spec_parse_instruction(raw),
    {
        parse_instruction(raw)
    }

    /// Whether this instruction may alter the PC other than by falling
    /// through: jumps, branches, `ecall` and `ebreak` end a translation
    /// block.
    pub open spec fn spec_is_terminator(self) -> bool {
        match self {
            Inst::JumpAndLink { .. } => true,
            Inst::JumpAndLinkReg { .. } => true,
            Inst::Branch { .. } => true,
            Inst::ECall { .. } => true,
            Inst::EBreak { .. } => true,
            _ => false,
        }
    }

    pub fn is_terminator(&self) -> (r: bool)
        ensures r == self.spec_is_terminator(),
    {
        match self {
            Inst::JumpAndLink { .. } => true,
            Inst::JumpAndLinkReg { .. } => true,
            Inst::Branch { .. } => true,
            Inst::ECall { .. } => true,
            Inst::EBreak { .. } => true,
            _ => false,
        }
    }

    /// Well-formedness of a decoded instruction: register indices fit
    /// the 32-entry register files, access widths are among 1/2/4/8,
    /// and direct jump and branch offsets are even. The decoder only
    /// produces well-formed instructions.
    pub open spec fn wf(self) -> bool {
        match self {
            Inst::Unknown => true,
            Inst::Load { dst, width, base, offset: _, signext: _ } =>
                dst < 32 && base < 32 && (width == 1 || width == 2 || width == 4 || width == 8),
            Inst::Store { src, width, base, offset: _ } =>
                src < 32 && base < 32 && (width == 1 || width == 2 || width == 4 || width == 8),
            Inst::JumpAndLink { dst, offset } => dst < 32 && offset % 2 == 0,
            Inst::JumpAndLinkReg { dst, base, offset: _ } => dst < 32 && base < 32,
            Inst::Branch { pred: _, src1, src2, offset } =>
                src1 < 32 && src2 < 32 && offset % 2 == 0,
            Inst::CtrlStatusReg { op: _, dst, src, csr: _ } => dst < 32 && src < 32,
            Inst::ECall { .. } => true,
            Inst::EBreak { .. } => true,
            Inst::ALUImm { op: _, dst, src1, imm: _ } => dst < 32 && src1 < 32,
            Inst::ALUReg { op: _, dst, src1, src2 } => dst < 32 && src1 < 32 && src2 < 32,
            Inst::LoadUpperImmediate { dst, imm: _ } => dst < 32,
            Inst::AddUpperImmediateToPC { dst, imm: _ } => dst < 32,
            Inst::LoadFP { dst, width, base, offset: _ } =>
                dst < 32 && base < 32 && (width == 4 || width == 8),
            Inst::StoreFP { src, width, base, offset: _ } =>
                src < 32 && base < 32 && (width == 4 || width == 8),
            Inst::FComp { .. } => true,
            Inst::FMADD { .. } => true,
            Inst::FMSUB { .. } => true,
        }
    }

    /// Whether this instruction is a call: a jump-and-link whose link
    /// register is `ra`.
    pub fn is_call(&self) -> (r: bool)
        ensures
            r == match *self {
                Inst::JumpAndLink { dst, .. } => dst == REG_RA,
                Inst::JumpAndLinkReg { dst, .. } => dst == REG_RA,
                _ => false,
            },
    {
        match self {
            Inst::JumpAndLink { dst, offset: _ } => *dst == REG_RA,
            Inst::JumpAndLinkReg { dst, base: _, offset: _ } => *dst == REG_RA,
            _ => false,
        }
    }

    /// Whether this instruction is a return: `jalr zero, ra, 0`.
    pub fn is_ret(&self) -> (r: bool)
        ensures
            r == match *self {
                Inst::JumpAndLinkReg { dst, base, offset } =>
                    dst == REG_ZR && base == REG_RA && offset == 0,
                _ => false,
            },
    {
        match self {
            Inst::JumpAndLinkReg { dst, base, offset } =>
                *dst == REG_ZR && *base == REG_RA && *offset == 0,
            _ => false,
        }
    }
}

proof fn lemma_base_field_bounds(raw: u32)
    by (bit_vector)
    ensures
        spec_rd(raw) < 32,
        spec_rs1(raw) < 32,
        spec_rs2(raw) < 32,
{
}

proof fn lemma_compressed_field_bounds(raw: u16)
    by (bit_vector)
    ensures
        8 <= spec_creg_987(raw) < 16,
        8 <= spec_creg_432(raw) < 16,
        spec_creg_5(raw) < 32,
        (((raw >> 7) & 0x1f) as Reg) < 32,
        (((raw >> 2) & 0x1f) as Reg) < 32,
{
}

/// The B- and J-format byte offsets have bit 0 hardwired to zero: a
/// decoded branch or direct-jump offset is always even.
proof fn lemma_base_offsets_even(raw: u32)
    by (bit_vector)
    ensures
        (spec_imm_b(raw) as i32) % 2 == 0,
        (spec_imm_j(raw) as i32) % 2 == 0,
{
}

/// The compressed branch and jump offsets have bit 0 hardwired to zero.
proof fn lemma_compressed_offsets_even(raw: u16)
    by (bit_vector)
    ensures
        (spec_cimm_branch(raw) as i32) % 2 == 0,
        (spec_cimm_j(raw) as i32) % 2 == 0,
{
}

/// Every successfully decoded instruction is well-formed, and its
/// encoded size is 2 or 4 bytes.
pub proof fn lemma_parse_instruction_wf(raw: u32)
    ensures
        spec_parse_instruction(raw) matches Ok(p)
            ==> p.0.wf() && (p.1 == 2 || p.1 == 4),
{
    lemma_base_field_bounds(raw);
    lemma_compressed_field_bounds(raw as u16);
    lemma_base_offsets_even(raw);
    lemma_compressed_offsets_even(raw as u16);
}

// Arithmetic semantics. The `W` operations compute on the low 32 bits
// and sign-extend the 32-bit result; shift amounts are taken modulo the
// operand width (6 bits for 64-bit operands, 5 bits for `W` forms);
// division follows the architecture: division by zero yields all-ones
// (signed) or the dividend (remainder), and the overflowing quotient
// wraps to the minimum value.

/// The truncating (toward zero) quotient of two integers, `b != 0`.
pub open spec fn spec_trunc_quot(a: int, b: int) -> int {
    if (a < 0) == (b < 0) {
        vstd::math::abs(a) as int / vstd::math::abs(b) as int
    } else {
        -(vstd::math::abs(a) as int / vstd::math::abs(b) as int)
    }
}

/// Signed 64-bit division: -1 on division by zero, otherwise the
/// truncating quotient, wrapped into 64 bits (the minimum value divided
/// by -1 yields itself).
pub open spec fn spec_sdiv64(a: i64, b: i64) -> i64 {
    if b == 0 {
        -1i64
    } else {
        vstd::wrapping::i64_specs::signed_crop(spec_trunc_quot(a as int, b as int))
    }
}

/// Signed 64-bit remainder: the dividend on division by zero, otherwise
/// `a - b * quotient` (which always fits).
pub open spec fn spec_srem64(a: i64, b: i64) -> i64 {
    if b == 0 {
        a
    } else {
        vstd::wrapping::i64_specs::signed_crop(a - b * spec_trunc_quot(a as int, b as int))
    }
}

/// Signed 32-bit division, as `spec_sdiv64`.
pub open spec fn spec_sdiv32(a: i32, b: i32) -> i32 {
    if b == 0 {
        -1i32
    } else {
        vstd::wrapping::i32_specs::signed_crop(spec_trunc_quot(a as int, b as int))
    }
}

/// Signed 32-bit remainder, as `spec_srem64`.
pub open spec fn spec_srem32(a: i32, b: i32) -> i32 {
    if b == 0 {
        a
    } else {
        vstd::wrapping::i32_specs::signed_crop(a - b * spec_trunc_quot(a as int, b as int))
    }
}

/// Unsigned 32-bit division: all-ones on division by zero.
pub open spec fn spec_udiv32(a: u32, b: u32) -> u32 {
    if b == 0 { u32::MAX } else { a / b }
}

/// Unsigned 32-bit remainder: the dividend on division by zero.
pub open spec fn spec_urem32(a: u32, b: u32) -> u32 {
    if b == 0 { a } else { a % b }
}

pub proof fn lemma_cast_i64_u64(x: i64)
    by (bit_vector)
    ensures
        x >= 0 ==> x as u64 == x,
        x < 0 ==> x as u64 == x + 0x1_0000_0000_0000_0000,
{
}

proof fn lemma_cast_u64_i64(x: u64)
    by (bit_vector)
    ensures
        x < 0x8000_0000_0000_0000 ==> x as i64 == x,
        x >= 0x8000_0000_0000_0000 ==> x as i64 == x - 0x1_0000_0000_0000_0000,
{
}

proof fn lemma_cast_i64_i32(x: i64)
    by (bit_vector)
    ensures
        -0x8000_0000 <= x < 0x8000_0000 ==> x as i32 == x,
        x == 0x8000_0000 ==> x as i32 == -0x8000_0000,
{
}

/// `signed_crop` into 64 bits is the identity on in-range values and
/// maps `2^63` to the minimum value.
proof fn lemma_signed_crop64(x: int)
    requires
        -0x8000_0000_0000_0000 <= x <= 0x8000_0000_0000_0000,
    ensures
        vstd::wrapping::i64_specs::signed_crop(x) == if x == 0x8000_0000_0000_0000 {
            -0x8000_0000_0000_0000
        } else {
            x
        },
{
    let r: int = 0x1_0000_0000_0000_0000;
    if x >= 0 {
        vstd::arithmetic::div_mod::lemma_small_mod(x as nat, r as nat);
    } else {
        vstd::arithmetic::div_mod::lemma_mod_multiples_vanish(1, x, r);
        vstd::arithmetic::div_mod::lemma_small_mod((x + r) as nat, r as nat);
    }
}

/// `signed_crop` into 32 bits is the identity on in-range values and
/// maps `2^31` to the minimum value.
proof fn lemma_signed_crop32(x: int)
    requires
        -0x8000_0000 <= x <= 0x8000_0000,
    ensures
        vstd::wrapping::i32_specs::signed_crop(x) == if x == 0x8000_0000 {
            -0x8000_0000
        } else {
            x
        },
{
    let r: int = 0x1_0000_0000;
    if x >= 0 {
        vstd::arithmetic::div_mod::lemma_small_mod(x as nat, r as nat);
    } else {
        vstd::arithmetic::div_mod::lemma_mod_multiples_vanish(1, x, r);
        vstd::arithmetic::div_mod::lemma_small_mod((x + r) as nat, r as nat);
    }
}

/// The magnitude of a signed 64-bit value, computed without overflow.
fn mag64(a: i64) -> (r: u64)
    ensures
        r == vstd::math::abs(a as int),
{
    proof { lemma_cast_i64_u64(a); }
    if a >= 0 {
        a as u64
    } else {
        0u64.wrapping_sub(a as u64)
    }
}

fn sdiv64(a: i64, b: i64) -> (r: i64)
    ensures
        r == spec_sdiv64(a, b),
{
    if b == 0 {
        return -1;
    }
    let ma: u64 = mag64(a);
    let mb: u64 = mag64(b);
    let q: u64 = ma / mb;
    proof {
        vstd::arithmetic::div_mod::lemma_div_nonincreasing(ma as int, mb as int);
    }
    if (a < 0) != (b < 0) {
        let out: u64 = 0u64.wrapping_sub(q);
        proof {
            lemma_signed_crop64(-(q as int));
            lemma_cast_u64_i64(out);
        }
        out as i64
    } else {
        proof {
            lemma_signed_crop64(q as int);
            lemma_cast_u64_i64(q);
        }
        q as i64
    }
}

fn srem64(a: i64, b: i64) -> (r: i64)
    ensures
        r == spec_srem64(a, b),
{
    if b == 0 {
        return a;
    }
    let ma: u64 = mag64(a);
    let mb: u64 = mag64(b);
    let rm: u64 = ma % mb;
    proof {
        vstd::arithmetic::div_mod::lemma_fundamental_div_mod(ma as int, mb as int);
        vstd::arithmetic::div_mod::lemma_mod_bound(ma as int, mb as int);
        let q: int = ma as int / mb as int;
        let tq: int = spec_trunc_quot(a as int, b as int);
        if a >= 0 && b > 0 {
            assert(a - b * tq == rm);
        } else if a >= 0 && b < 0 {
            assert(b * tq == mb * q) by (nonlinear_arith)
                requires b == -(mb as int), tq == -q;
            assert(a - b * tq == rm);
        } else if a < 0 && b > 0 {
            assert(b * tq == -(mb as int * q)) by (nonlinear_arith)
                requires b == mb as int, tq == -q;
            assert(a - b * tq == -(rm as int));
        } else {
            assert(b * tq == -(mb as int * q)) by (nonlinear_arith)
                requires b == -(mb as int), tq == q;
            assert(a - b * tq == -(rm as int));
        }
    }
    if a < 0 {
        let out: u64 = 0u64.wrapping_sub(rm);
        proof {
            lemma_signed_crop64(-(rm as int));
            lemma_cast_u64_i64(out);
        }
        out as i64
    } else {
        proof {
            lemma_signed_crop64(rm as int);
            lemma_cast_u64_i64(rm);
        }
        rm as i64
    }
}

fn sdiv32(a: i32, b: i32) -> (r: i32)
    ensures
        r == spec_sdiv32(a, b),
{
    if b == 0 {
        return -1;
    }
    let q64: i64 = sdiv64(a as i64, b as i64);
    proof {
        let tq: int = spec_trunc_quot(a as int, b as int);
        vstd::arithmetic::div_mod::lemma_div_nonincreasing(
            vstd::math::abs(a as int) as int,
            vstd::math::abs(b as int) as int,
        );
        lemma_signed_crop64(tq);
        lemma_signed_crop32(tq);
        lemma_cast_i64_i32(q64);
    }
    q64 as i32
}

fn srem32(a: i32, b: i32) -> (r: i32)
    ensures
        r == spec_srem32(a, b),
{
    if b == 0 {
        return a;
    }
    let r64: i64 = srem64(a as i64, b as i64);
    proof {
        let tq: int = spec_trunc_quot(a as int, b as int);
        let rem: int = a - b * tq;
        vstd::arithmetic::div_mod::lemma_fundamental_div_mod(
            vstd::math::abs(a as int) as int,
            vstd::math::abs(b as int) as int,
        );
        vstd::arithmetic::div_mod::lemma_mod_bound(
            vstd::math::abs(a as int) as int,
            vstd::math::abs(b as int) as int,
        );
        let q: int = vstd::math::abs(a as int) as int / vstd::math::abs(b as int) as int;
        let rm: int = vstd::math::abs(a as int) as int % vstd::math::abs(b as int) as int;
        if a >= 0 && b > 0 {
            assert(rem == rm);
        } else if a >= 0 && b < 0 {
            assert(b * tq == vstd::math::abs(b as int) * q) by (nonlinear_arith)
                requires b == -(vstd::math::abs(b as int) as int), tq == -q;
            assert(rem == rm);
        } else if a < 0 && b > 0 {
            assert(b * tq == -(vstd::math::abs(b as int) as int * q)) by (nonlinear_arith)
                requires b == vstd::math::abs(b as int) as int, tq == -q;
            assert(rem == -rm);
        } else {
            assert(b * tq == -(vstd::math::abs(b as int) as int * q)) by (nonlinear_arith)
                requires b == -(vstd::math::abs(b as int) as int), tq == q;
            assert(rem == -rm);
        }
        lemma_signed_crop64(rem);
        lemma_signed_crop32(rem);
        lemma_cast_i64_i32(r64);
    }
    r64 as i32
}

/// The value an ALU-with-register operation computes from two operands.
pub open spec fn spec_alu_reg(op: ALU, a: u64, b: u64) -> u64 {
    match op {
        ALU::Add => vstd::wrapping::u64_specs::wrapping_add(a, b),
        ALU::AddW => vstd::wrapping::u32_specs::wrapping_add(a as u32, b as u32)
            as i32 as i64 as u64,
        ALU::Sub => vstd::wrapping::u64_specs::wrapping_sub(a, b),
        ALU::SubW => vstd::wrapping::u32_specs::wrapping_sub(a as u32, b as u32)
            as i32 as i64 as u64,
        ALU::And => a & b,
        ALU::Or => a | b,
        ALU::XOr => a ^ b,
        ALU::SLL => vstd::wrapping::u64_specs::wrapping_shl(a, b as u32),
        ALU::SLLW => vstd::wrapping::u32_specs::wrapping_shl(a as u32, b as u32)
            as i32 as i64 as u64,
        ALU::SRL => vstd::wrapping::u64_specs::wrapping_shr(a, b as u32),
        ALU::SRLW => vstd::wrapping::u32_specs::wrapping_shr(a as u32, b as u32)
            as i32 as i64 as u64,
        ALU::SRA => vstd::wrapping::i64_specs::wrapping_shr(a as i64, b as u32) as u64,
        ALU::SRAW => vstd::wrapping::i32_specs::wrapping_shr(a as i32, b as u32)
            as i64 as u64,
        ALU::SLT => if (a as i64) < (b as i64) { 1 } else { 0 },
        ALU::SLTU => if a < b { 1 } else { 0 },
        ALU::Mul => vstd::wrapping::i64_specs::wrapping_mul(a as i64, b as i64) as u64,
        ALU::MulW => vstd::wrapping::i32_specs::wrapping_mul(a as i32, b as i32)
            as i64 as u64,
        ALU::Div => spec_sdiv64(a as i64, b as i64) as u64,
        ALU::DivW => spec_sdiv32(a as i32, b as i32) as i64 as u64,
        ALU::Rem => spec_srem64(a as i64, b as i64) as u64,
        ALU::RemW => spec_srem32(a as i32, b as i32) as i64 as u64,
        ALU::DivU => if b == 0 { u64::MAX } else { a / b },
        ALU::RemU => if b == 0 { a } else { a % b },
        ALU::DivUW => spec_udiv32(a as u32, b as u32) as i32 as i64 as u64,
        ALU::RemUW => spec_urem32(a as u32, b as u32) as i32 as i64 as u64,
    }
}

/// The value an ALU-with-immediate operation computes. The second
/// operand is the sign-extended 32-bit immediate (used at 32 bits
/// directly by the `W` forms). The multiply/divide operations have no
/// immediate encodings, and the decoder never produces them; their
/// value here is zero.
pub open spec fn spec_alu_imm(op: ALU, a: u64, imm: u32) -> u64 {
    let simm64 = imm as i32 as i64 as u64;
    match op {
        ALU::Add => vstd::wrapping::u64_specs::wrapping_add(a, simm64),
        ALU::AddW => vstd::wrapping::u32_specs::wrapping_add(a as u32, imm)
            as i32 as i64 as u64,
        ALU::Sub => vstd::wrapping::u64_specs::wrapping_sub(a, simm64),
        ALU::SubW => vstd::wrapping::u32_specs::wrapping_sub(a as u32, imm)
            as i32 as i64 as u64,
        ALU::And => a & simm64,
        ALU::Or => a | simm64,
        ALU::XOr => a ^ simm64,
        ALU::SLL => vstd::wrapping::u64_specs::wrapping_shl(a, imm),
        ALU::SLLW => vstd::wrapping::u32_specs::wrapping_shl(a as u32, imm)
            as i32 as i64 as u64,
        ALU::SRL => vstd::wrapping::u64_specs::wrapping_shr(a, imm),
        ALU::SRLW => vstd::wrapping::u32_specs::wrapping_shr(a as u32, imm)
            as i32 as i64 as u64,
        ALU::SRA => vstd::wrapping::i64_specs::wrapping_shr(a as i64, imm) as u64,
        ALU::SRAW => vstd::wrapping::i32_specs::wrapping_shr(a as i32, imm)
            as i64 as u64,
        ALU::SLT => if (a as i64) < (imm as i32 as i64) { 1 } else { 0 },
        ALU::SLTU => if a < simm64 { 1 } else { 0 },
        _ => 0,
    }
}

/// Compute an ALU-with-register operation.
pub fn alu_reg_value(op: ALU, a: u64, b: u64) -> (r: u64)
    ensures
        r == spec_alu_reg(op, a, b),
{
    match op {
        ALU::Add => a.wrapping_add(b),
        ALU::AddW => (a as u32).wrapping_add(b as u32) as i32 as i64 as u64,
        ALU::Sub => a.wrapping_sub(b),
        ALU::SubW => (a as u32).wrapping_sub(b as u32) as i32 as i64 as u64,
        ALU::And => a & b,
        ALU::Or => a | b,
        ALU::XOr => a ^ b,
        ALU::SLL => a.wrapping_shl(b as u32),
        ALU::SLLW => (a as u32).wrapping_shl(b as u32) as i32 as i64 as u64,
        ALU::SRL => a.wrapping_shr(b as u32),
        ALU::SRLW => (a as u32).wrapping_shr(b as u32) as i32 as i64 as u64,
        ALU::SRA => (a as i64).wrapping_shr(b as u32) as u64,
        ALU::SRAW => (a as i32).wrapping_shr(b as u32) as i64 as u64,
        ALU::SLT => if (a as i64) < (b as i64) { 1 } else { 0 },
        ALU::SLTU => if a < b { 1 } else { 0 },
        ALU::Mul => (a as i64).wrapping_mul(b as i64) as u64,
        ALU::MulW => (a as i32).wrapping_mul(b as i32) as i64 as u64,
        ALU::Div => sdiv64(a as i64, b as i64) as u64,
        ALU::DivW => sdiv32(a as i32, b as i32) as i64 as u64,
        ALU::Rem => srem64(a as i64, b as i64) as u64,
        ALU::RemW => srem32(a as i32, b as i32) as i64 as u64,
        ALU::DivU => if b == 0 { u64::MAX } else { a / b },
        ALU::RemU => if b == 0 { a } else { a % b },
        ALU::DivUW => {
            let bw: u32 = b as u32;
            let q: u32 = if bw == 0 { u32::MAX } else { (a as u32) / bw };
            q as i32 as i64 as u64
        },
        ALU::RemUW => {
            let bw: u32 = b as u32;
            let q: u32 = if bw == 0 { a as u32 } else { (a as u32) % bw };
            q as i32 as i64 as u64
        },
    }
}

/// Compute an ALU-with-immediate operation.
pub fn alu_imm_value(op: ALU, a: u64, imm: u32) -> (r: u64)
    ensures
        r == spec_alu_imm(op, a, imm),
{
    let simm64: u64 = imm as i32 as i64 as u64;
    match op {
        ALU::Add => a.wrapping_add(simm64),
        ALU::AddW => (a as u32).wrapping_add(imm) as i32 as i64 as u64,
        ALU::Sub => a.wrapping_sub(simm64),
        ALU::SubW => (a as u32).wrapping_sub(imm) as i32 as i64 as u64,
        ALU::And => a & simm64,
        ALU::Or => a | simm64,
        ALU::XOr => a ^ simm64,
        ALU::SLL => a.wrapping_shl(imm),
        ALU::SLLW => (a as u32).wrapping_shl(imm) as i32 as i64 as u64,
        ALU::SRL => a.wrapping_shr(imm),
        ALU::SRLW => (a as u32).wrapping_shr(imm) as i32 as i64 as u64,
        ALU::SRA => (a as i64).wrapping_shr(imm) as u64,
        ALU::SRAW => (a as i32).wrapping_shr(imm) as i64 as u64,
        ALU::SLT => if (a as i64) < (imm as i32 as i64) { 1 } else { 0 },
        ALU::SLTU => if a < simm64 { 1 } else { 0 },
        ALU::Mul | ALU::MulW | ALU::Div | ALU::DivW | ALU::DivU | ALU::DivUW
        | ALU::Rem | ALU::RemW | ALU::RemU | ALU::RemUW => 0,
    }
}

/// The effective address of a load or store: the base register's value
/// plus the sign-extended offset, in 64-bit wrapping arithmetic.
pub open spec fn spec_ea(base: u64, offset: i32) -> u64 {
    vstd::wrapping::u64_specs::wrapping_add(base, offset as i64 as u64)
}

/// Whether a branch predicate holds of two register values; signed
/// comparisons reinterpret the values in two's complement.
pub open spec fn spec_branch_taken(pred: Predicate, a: u64, b: u64) -> bool {
    match pred {
        Predicate::EQ => a == b,
        Predicate::NE => a != b,
        Predicate::LT => (a as i64) < (b as i64),
        Predicate::LTU => a < b,
        Predicate::GE => (a as i64) >= (b as i64),
        Predicate::GEU => a >= b,
    }
}

/// The destination of a taken branch or a direct jump: the instruction's
/// own PC plus its byte offset, in 64-bit wrapping arithmetic.
pub open spec fn spec_branch_target(pc: i64, offset: i32) -> i64 {
    vstd::wrapping::i64_specs::wrapping_add(pc, offset as i64)
}

/// The value a load of the given width produces, sign- or zero-extended
/// to 64 bits.
pub open spec fn spec_load_value(mem: Seq<u8>, ea: int, width: u8, signext: bool) -> u64 {
    if width == 1 {
        if signext { mem[ea] as i8 as i64 as u64 } else { mem[ea] as u64 }
    } else if width == 2 {
        if signext { le16_of(mem, ea) as i16 as i64 as u64 } else { le16_of(mem, ea) as u64 }
    } else if width == 4 {
        if signext { le32_of(mem, ea) as i32 as i64 as u64 } else { le32_of(mem, ea) as u64 }
    } else {
        le64_of(mem, ea)
    }
}

/// The memory after a store of the low `width` bytes of `val`.
pub open spec fn spec_store_mem(mem: Seq<u8>, ea: int, width: u8, val: u64) -> Seq<u8> {
    if width == 1 {
        mem.update(ea, val as u8)
    } else if width == 2 {
        store16_le(mem, ea, val as u16)
    } else if width == 4 {
        store32_le(mem, ea, val as u32)
    } else {
        store64_le(mem, ea, val)
    }
}

/// What executing one decoded instruction does to the CPU state. The PC
/// advances by the instruction's encoded size on fall-through; control
/// transfers write it explicitly, and a register-indirect jump clears
/// its low bit. Loads and stores whose access does not fit in memory
/// trap with `OutOfBounds`; floating-point and unknown forms trap as
/// unimplemented; `ecall` is the syscall adapter's decision.
pub open spec fn spec_exec(inst: Inst, size: i64, pre: CpuView) -> ExecOut {
    match inst {
        Inst::LoadUpperImmediate { dst, imm } =>
            ExecOut::Next(pre.with_reg(dst, imm as i32 as i64 as u64).advanced(size)),
        Inst::AddUpperImmediateToPC { dst, imm } =>
            ExecOut::Next(pre.with_reg(
                dst,
                vstd::wrapping::i64_specs::wrapping_add(pre.pc, imm as i32 as i64) as u64,
            ).advanced(size)),
        Inst::JumpAndLink { dst, offset } =>
            ExecOut::Next(pre.with_reg(
                dst,
                vstd::wrapping::i64_specs::wrapping_add(pre.pc, size) as u64,
            ).with_pc(spec_branch_target(pre.pc, offset))),
        Inst::JumpAndLinkReg { dst, base, offset } => {
            let target = (vstd::wrapping::u64_specs::wrapping_add(
                pre.regs[base as int],
                offset as i64 as u64,
            ) & !1u64) as i64;
            ExecOut::Next(pre.with_reg(
                dst,
                vstd::wrapping::i64_specs::wrapping_add(pre.pc, size) as u64,
            ).with_pc(target))
        },
        Inst::Branch { pred, src1, src2, offset } =>
            if spec_branch_taken(pred, pre.regs[src1 as int], pre.regs[src2 as int]) {
                ExecOut::Next(pre.with_pc(spec_branch_target(pre.pc, offset)))
            } else {
                ExecOut::Next(pre.advanced(size))
            },
        Inst::Load { dst, width, base, offset, signext } => {
            let ea = spec_ea(pre.regs[base as int], offset);
            if ea + width <= MEM_SIZE {
                ExecOut::Next(pre.with_reg(
                    dst,
                    spec_load_value(pre.mem, ea as int, width, signext),
                ).advanced(size))
            } else {
                ExecOut::Trap(Error::OutOfBounds)
            }
        },
        Inst::Store { src, width, base, offset } => {
            let ea = spec_ea(pre.regs[base as int], offset);
            if ea + width <= MEM_SIZE {
                ExecOut::Next(pre.with_mem(
                    spec_store_mem(pre.mem, ea as int, width, pre.regs[src as int]),
                ).advanced(size))
            } else {
                ExecOut::Trap(Error::OutOfBounds)
            }
        },
        Inst::ALUReg { op, dst, src1, src2 } =>
            ExecOut::Next(pre.with_reg(
                dst,
                spec_alu_reg(op, pre.regs[src1 as int], pre.regs[src2 as int]),
            ).advanced(size)),
        Inst::ALUImm { op, dst, src1, imm } =>
            ExecOut::Next(pre.with_reg(
                dst,
                spec_alu_imm(op, pre.regs[src1 as int], imm),
            ).advanced(size)),
        Inst::ECall { .. } => spec_ecall(pre, size),
        Inst::EBreak { .. } => ExecOut::Next(pre.advanced(size)),
        Inst::CtrlStatusReg { .. } => ExecOut::Next(pre.advanced(size)),
        _ => ExecOut::Trap(Error::Unimplemented("instruction not executable")),
    }
}

/// Clearing the low bit of a 64-bit word leaves an even value.
pub proof fn lemma_clear_low_bit_even(x: u64)
    by (bit_vector)
    ensures
        (x & !1u64) % 2 == 0,
{
}

/// An even `u64` reinterpreted as `i64` stays even.
pub proof fn lemma_cast_parity(x: u64)
    requires
        x % 2 == 0,
    ensures
        (x as i64) % 2 == 0,
{
    lemma_cast_u64_i64(x);
    if x >= 0x8000_0000_0000_0000 {
        vstd::arithmetic::div_mod::lemma_mod_multiples_vanish(
            -0x8000_0000_0000_0000,
            x as int,
            2,
        );
    }
}

pub fn branch_taken(pred: Predicate, a: u64, b: u64) -> (r: bool)
    ensures
        r == spec_branch_taken(pred, a, b),
{
    match pred {
        Predicate::EQ => a == b,
        Predicate::NE => a != b,
        Predicate::LT => (a as i64) < (b as i64),
        Predicate::LTU => a < b,
        Predicate::GE => (a as i64) >= (b as i64),
        Predicate::GEU => a >= b,
    }
}

impl Inst {
    /// Execute one decoded instruction against the CPU state. Returns
    /// `Ok(None)` when execution continued (the PC has advanced or been
    /// redirected), `Ok(Some(action))` when an `ecall` needs a host
    /// action performed by the caller, and `Err` on a trap or guest
    /// exit, leaving the state unchanged.
    pub fn exec(&self, inst_size: i64, cpu: &mut CPU) -> (r: Result<Option<SyscallAction>, Error>)
        requires
            old(cpu).wf(),
            self.wf(),
            inst_size == 2 || inst_size == 4,
        ensures
            final(cpu).wf(),
            match spec_exec(*self, inst_size, old(cpu)@) {
                ExecOut::Next(post) => r matches Ok(None) && final(cpu)@ == post,
                ExecOut::Sys(post, act) => r matches Ok(Some(a))
                    && a@ == act && final(cpu)@ == post,
                ExecOut::Trap(e) => r matches Err(e2) && e2 == e
                    && final(cpu)@ == old(cpu)@,
            },
            final(cpu).debug_syscalls == old(cpu).debug_syscalls,
            final(cpu).jit_enabled == old(cpu).jit_enabled,
    {
        match *self {
            Inst::LoadUpperImmediate { dst, imm } => {
                cpu.set_reg(dst, imm as i32 as i64 as u64);
                cpu.pc = cpu.pc.wrapping_add(inst_size);
                proof { lemma_wrapping_add_even(old(cpu).pc, inst_size); }
                Ok(None)
            },
            Inst::AddUpperImmediateToPC { dst, imm } => {
                let v: u64 = cpu.pc.wrapping_add(imm as i32 as i64) as u64;
                cpu.set_reg(dst, v);
                cpu.pc = cpu.pc.wrapping_add(inst_size);
                proof { lemma_wrapping_add_even(old(cpu).pc, inst_size); }
                Ok(None)
            },
            Inst::JumpAndLink { dst, offset } => {
                let link: u64 = cpu.pc.wrapping_add(inst_size) as u64;
                cpu.set_reg(dst, link);
                cpu.pc = cpu.pc.wrapping_add(offset as i64);
                proof { lemma_wrapping_add_even(old(cpu).pc, offset as i64); }
                Ok(None)
            },
            Inst::JumpAndLinkReg { dst, base, offset } => {
                let target: u64 = cpu.get_reg(base).wrapping_add(offset as i64 as u64) & !1u64;
                let link: u64 = cpu.pc.wrapping_add(inst_size) as u64;
                cpu.set_reg(dst, link);
                cpu.pc = target as i64;
                proof {
                    lemma_clear_low_bit_even(
                        vstd::wrapping::u64_specs::wrapping_add(
                            old(cpu)@.regs[base as int],
                            offset as i64 as u64,
                        ),
                    );
                    lemma_cast_parity(target);
                }
                Ok(None)
            },
            Inst::Branch { pred, src1, src2, offset } => {
                let a: u64 = cpu.get_reg(src1);
                let b: u64 = cpu.get_reg(src2);
                if branch_taken(pred, a, b) {
                    cpu.pc = cpu.pc.wrapping_add(offset as i64);
                    proof { lemma_wrapping_add_even(old(cpu).pc, offset as i64); }
                } else {
                    cpu.pc = cpu.pc.wrapping_add(inst_size);
                    proof { lemma_wrapping_add_even(old(cpu).pc, inst_size); }
                }
                Ok(None)
            },
            Inst::Load { dst, width, base, offset, signext } => {
                let ea: u64 = cpu.get_reg(base).wrapping_add(offset as i64 as u64);
                if ea <= MEM_SIZE as u64 - width as u64 {
                    proof { lemma_small_u64_fits_usize(ea); }
                    let addr: usize = ea as usize;
                    let v: u64 = if width == 1 {
                        let b: u8 = cpu.memory.load_u8_raw(addr);
                        if signext { b as i8 as i64 as u64 } else { b as u64 }
                    } else if width == 2 {
                        let h: u16 = cpu.memory.load_u16_raw(addr);
                        if signext { h as i16 as i64 as u64 } else { h as u64 }
                    } else if width == 4 {
                        let w: u32 = cpu.memory.load_u32_raw(addr);
                        if signext { w as i32 as i64 as u64 } else { w as u64 }
                    } else {
                        cpu.memory.load_u64_raw(addr)
                    };
                    cpu.set_reg(dst, v);
                    cpu.pc = cpu.pc.wrapping_add(inst_size);
                    proof { lemma_wrapping_add_even(old(cpu).pc, inst_size); }
                    Ok(None)
                } else {
                    Err(Error::OutOfBounds)
                }
            },
            Inst::Store { src, width, base, offset } => {
                let ea: u64 = cpu.get_reg(base).wrapping_add(offset as i64 as u64);
                if ea <= MEM_SIZE as u64 - width as u64 {
                    proof { lemma_small_u64_fits_usize(ea); }
                    let addr: usize = ea as usize;
                    let val: u64 = cpu.get_reg(src);
                    if width == 1 {
                        cpu.memory.store_u8_raw(addr, val as u8);
                    } else if width == 2 {
                        cpu.memory.store_u16_raw(addr, val as u16);
                    } else if width == 4 {
                        cpu.memory.store_u32_raw(addr, val as u32);
                    } else {
                        cpu.memory.store_u64_raw(addr, val);
                    }
                    cpu.pc = cpu.pc.wrapping_add(inst_size);
                    proof { lemma_wrapping_add_even(old(cpu).pc, inst_size); }
                    Ok(None)
                } else {
                    Err(Error::OutOfBounds)
                }
            },
            Inst::ALUReg { op, dst, src1, src2 } => {
                let a: u64 = cpu.get_reg(src1);
                let b: u64 = cpu.get_reg(src2);
                cpu.set_reg(dst, alu_reg_value(op, a, b));
                cpu.pc = cpu.pc.wrapping_add(inst_size);
                proof { lemma_wrapping_add_even(old(cpu).pc, inst_size); }
                Ok(None)
            },
            Inst::ALUImm { op, dst, src1, imm } => {
                let a: u64 = cpu.get_reg(src1);
                cpu.set_reg(dst, alu_imm_value(op, a, imm));
                cpu.pc = cpu.pc.wrapping_add(inst_size);
                proof { lemma_wrapping_add_even(old(cpu).pc, inst_size); }
                Ok(None)
            },
            Inst::ECall { .. } => cpu.ecall(inst_size),
            Inst::EBreak { .. } => {
                cpu.pc = cpu.pc.wrapping_add(inst_size);
                proof { lemma_wrapping_add_even(old(cpu).pc, inst_size); }
                Ok(None)
            },
            Inst::CtrlStatusReg { .. } => {
                cpu.pc = cpu.pc.wrapping_add(inst_size);
                proof { lemma_wrapping_add_even(old(cpu).pc, inst_size); }
                Ok(None)
            },
            _ => Err(Error::Unimplemented("instruction not executable")),
        }
    }
}

/// Computing a branch destination twice from the same PC and offset
/// yields the same value.
pub proof fn lemma_branch_target_deterministic(pc: i64, offset: i32, t1: i64, t2: i64)
    requires
        t1 == spec_branch_target(pc, offset),
        t2 == spec_branch_target(pc, offset),
    ensures
        t1 == t2,
{
}

/// The decoder is a pure function of the code word: any two results of
/// decoding the same word are equal.
pub proof fn lemma_parse_deterministic(
    raw: u32,
    r1: Result<(Inst, usize), Error>,
    r2: Result<(Inst, usize), Error>,
)
    requires
        r1 == spec_parse_instruction(raw),
        r2 == spec_parse_instruction(raw),
    ensures
        r1 == r2,
{
}

} // verus!
