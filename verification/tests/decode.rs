use simrv64i::insts::{Inst, ALU, Predicate, Error, sign_extend};

#[test]
fn decode_addi() {
    // addi a0, a1, 42
    let r = Inst::parse(0x02A58513).unwrap();
    assert_eq!(
        r,
        (Inst::ALUImm { op: ALU::Add, dst: 10, src1: 11, imm: 42 }, 4)
    );
}

#[test]
fn decode_lui() {
    // lui a0, 0x12345
    let r = Inst::parse(0x12345537).unwrap();
    assert_eq!(
        r,
        (Inst::LoadUpperImmediate { dst: 10, imm: 0x12345000 }, 4)
    );
}

#[test]
fn decode_jal() {
    // jal ra, +8
    let r = Inst::parse(0x008000EF).unwrap();
    assert_eq!(r, (Inst::JumpAndLink { dst: 1, offset: 8 }, 4));
}

#[test]
fn decode_jalr_ret() {
    // jalr zero, ra, 0
    let (inst, size) = Inst::parse(0x00008067).unwrap();
    assert_eq!(size, 4);
    assert_eq!(inst, Inst::JumpAndLinkReg { dst: 0, base: 1, offset: 0 });
    assert!(inst.is_ret());
    assert!(!inst.is_call());
}

#[test]
fn decode_branch() {
    // bne a0, a1, +0x40
    let r = Inst::parse(0x04B51063).unwrap();
    assert_eq!(
        r,
        (Inst::Branch { pred: Predicate::NE, src1: 10, src2: 11, offset: 0x40 }, 4)
    );
}

#[test]
fn decode_negative_load_offset() {
    // lw a0, -4(sp)
    // I-format imm = -4 = 0xffc
    let raw: u32 = (0xffc << 20) | (2 << 15) | (0b010 << 12) | (10 << 7) | 0b0000011;
    let r = Inst::parse(raw).unwrap();
    assert_eq!(
        r,
        (Inst::Load { dst: 10, width: 4, base: 2, offset: -4, signext: true }, 4)
    );
}

#[test]
fn decode_store() {
    // sd a0, 16(sp): S-format imm 16 -> imm[11:5]=0, imm[4:0]=16
    let raw: u32 = (10 << 20) | (2 << 15) | (0b011 << 12) | (16 << 7) | 0b0100011;
    let r = Inst::parse(raw).unwrap();
    assert_eq!(
        r,
        (Inst::Store { src: 10, width: 8, base: 2, offset: 16 }, 4)
    );
}

#[test]
fn decode_compressed_addi() {
    // c.addi a0, 1
    let r = Inst::parse(0x0505).unwrap();
    assert_eq!(
        r,
        (Inst::ALUImm { op: ALU::Add, dst: 10, src1: 10, imm: 1 }, 2)
    );
}

#[test]
fn decode_compressed_illegal() {
    assert_eq!(Inst::parse(0), Err(Error::Illegal));
}

#[test]
fn decode_unknown_opcode() {
    assert_eq!(
        Inst::parse(0x0000007F),
        Err(Error::InvalidEncoding("unknown opcode"))
    );
}

#[test]
fn decode_ecall_ebreak() {
    let (e, _) = Inst::parse(0x00000073).unwrap();
    assert!(matches!(e, Inst::ECall { .. }));
    assert!(e.is_terminator());
    let (b, _) = Inst::parse(0x00100073).unwrap();
    assert!(matches!(b, Inst::EBreak { .. }));
}

#[test]
fn decode_mul_div() {
    // div a0, a1, a2: funct7 = 1, funct3 = 100
    let raw: u32 = (1 << 25) | (12 << 20) | (11 << 15) | (0b100 << 12) | (10 << 7) | 0b0110011;
    let r = Inst::parse(raw).unwrap();
    assert_eq!(
        r,
        (Inst::ALUReg { op: ALU::Div, dst: 10, src1: 11, src2: 12 }, 4)
    );
    // mulh is deliberately deferred
    let raw2: u32 = (1 << 25) | (12 << 20) | (11 << 15) | (0b001 << 12) | (10 << 7) | 0b0110011;
    assert_eq!(Inst::parse(raw2), Err(Error::Unimplemented("mulh")));
}

#[test]
fn decode_is_pure() {
    // equal inputs yield equal outputs
    let w: u32 = 0x02A58513;
    assert_eq!(Inst::parse(w), Inst::parse(w));
}

#[test]
fn sign_extend_basics() {
    assert_eq!(sign_extend(0xfff, 12), 0xffff_ffff);
    assert_eq!(sign_extend(0x7ff, 12), 0x7ff);
    assert_eq!(sign_extend(1, 1), 0xffff_ffff);
    assert_eq!(sign_extend(0x8000_0000, 32), 0x8000_0000);
}
