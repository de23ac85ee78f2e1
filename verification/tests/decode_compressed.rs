//! Decodings checked against assembler output for the C extension and
//! some more base-instruction forms.

use simrv64i::insts::{Inst, ALU, Predicate};
use simrv64i::cpu::CPU;
use simrv64i::tbs::JIT;

fn dec(raw: u32) -> (Inst, usize) {
    Inst::parse(raw).unwrap()
}

#[test]
fn c_li() {
    // c.li a0, 5
    assert_eq!(dec(0x4515), (Inst::ALUImm { op: ALU::Add, dst: 10, src1: 0, imm: 5 }, 2));
}

#[test]
fn c_mv_and_add() {
    // c.mv a0, a1
    assert_eq!(dec(0x852E), (Inst::ALUReg { op: ALU::Add, dst: 10, src1: 0, src2: 11 }, 2));
    // c.add a0, a1
    assert_eq!(dec(0x952E), (Inst::ALUReg { op: ALU::Add, dst: 10, src1: 10, src2: 11 }, 2));
}

#[test]
fn c_ret_and_jalr() {
    // c.jr ra (the canonical `ret`)
    let (inst, size) = dec(0x8082);
    assert_eq!(size, 2);
    assert_eq!(inst, Inst::JumpAndLinkReg { dst: 0, base: 1, offset: 0 });
    assert!(inst.is_ret());
    // c.jalr a0
    assert_eq!(dec(0x9502), (Inst::JumpAndLinkReg { dst: 1, base: 10, offset: 0 }, 2));
    // c.ebreak
    assert!(matches!(dec(0x9002).0, Inst::EBreak { .. }));
}

#[test]
fn c_loads_and_stores() {
    // c.lw a5, 4(a0)
    assert_eq!(
        dec(0x415C),
        (Inst::Load { dst: 15, width: 4, base: 10, offset: 4, signext: true }, 2)
    );
    // c.sd a4, 8(a5)
    assert_eq!(dec(0xE798), (Inst::Store { src: 14, width: 8, base: 15, offset: 8 }, 2));
    // c.ldsp ra, 8(sp)
    assert_eq!(
        dec(0x60A2),
        (Inst::Load { dst: 1, width: 8, base: 2, offset: 8, signext: true }, 2)
    );
    // c.sdsp ra, 8(sp)
    assert_eq!(dec(0xE406), (Inst::Store { src: 1, width: 8, base: 2, offset: 8 }, 2));
    // c.lwsp a0, 4(sp)
    assert_eq!(
        dec(0x4512),
        (Inst::Load { dst: 10, width: 4, base: 2, offset: 4, signext: true }, 2)
    );
    // c.swsp a0, 4(sp)
    assert_eq!(dec(0xC22A), (Inst::Store { src: 10, width: 4, base: 2, offset: 4 }, 2));
}

#[test]
fn c_stack_adjustments() {
    // c.addi16sp sp, 32
    assert_eq!(dec(0x6105), (Inst::ALUImm { op: ALU::Add, dst: 2, src1: 2, imm: 32 }, 2));
    // c.addi4spn a0, sp, 8
    assert_eq!(dec(0x0028), (Inst::ALUImm { op: ALU::Add, dst: 10, src1: 2, imm: 8 }, 2));
}

#[test]
fn c_lui() {
    // c.lui a0, 1
    assert_eq!(dec(0x6505), (Inst::LoadUpperImmediate { dst: 10, imm: 0x1000 }, 2));
}

#[test]
fn c_shifts_and_masks() {
    // c.slli a0, 2
    assert_eq!(dec(0x050A), (Inst::ALUImm { op: ALU::SLL, dst: 10, src1: 10, imm: 2 }, 2));
    // c.srli a0, 1
    assert_eq!(dec(0x8105), (Inst::ALUImm { op: ALU::SRL, dst: 10, src1: 10, imm: 1 }, 2));
    // c.andi a0, 3
    assert_eq!(dec(0x890D), (Inst::ALUImm { op: ALU::And, dst: 10, src1: 10, imm: 3 }, 2));
}

#[test]
fn c_register_arithmetic() {
    // c.sub a0, a1
    assert_eq!(dec(0x8D0D), (Inst::ALUReg { op: ALU::Sub, dst: 10, src1: 10, src2: 11 }, 2));
    // c.addw a0, a1
    assert_eq!(dec(0x9D2D), (Inst::ALUReg { op: ALU::AddW, dst: 10, src1: 10, src2: 11 }, 2));
    // c.addiw a0, 1
    assert_eq!(dec(0x2505), (Inst::ALUImm { op: ALU::AddW, dst: 10, src1: 10, imm: 1 }, 2));
}

#[test]
fn c_jumps_and_branches() {
    // c.j .+16
    assert_eq!(dec(0xA801), (Inst::JumpAndLink { dst: 0, offset: 16 }, 2));
    // c.beqz a0, .+8
    assert_eq!(
        dec(0xC501),
        (Inst::Branch { pred: Predicate::EQ, src1: 10, src2: 0, offset: 8 }, 2)
    );
    // c.bnez a0, .+8
    assert_eq!(
        dec(0xE501),
        (Inst::Branch { pred: Predicate::NE, src1: 10, src2: 0, offset: 8 }, 2)
    );
}

#[test]
fn base_wide_forms() {
    // addiw a0, a0, 1
    assert_eq!(dec(0x0015051B), (Inst::ALUImm { op: ALU::AddW, dst: 10, src1: 10, imm: 1 }, 4));
    // sllw a0, a1, a2
    assert_eq!(
        dec(0x00C5953B),
        (Inst::ALUReg { op: ALU::SLLW, dst: 10, src1: 11, src2: 12 }, 4)
    );
    // srai a0, a0, 1
    assert_eq!(dec(0x40155513), (Inst::ALUImm { op: ALU::SRA, dst: 10, src1: 10, imm: 1 }, 4));
    // auipc a0, 1
    assert_eq!(dec(0x00001517), (Inst::AddUpperImmediateToPC { dst: 10, imm: 0x1000 }, 4));
    // lbu a0, 0(a1)
    let raw: u32 = (11 << 15) | (0b100 << 12) | (10 << 7) | 0b0000011;
    assert_eq!(
        dec(raw),
        (Inst::Load { dst: 10, width: 1, base: 11, offset: 0, signext: false }, 4)
    );
}

#[test]
fn compressed_program_steps() {
    // c.addi a0, 1; c.j .-2 is an endless loop, so jump forward instead:
    // c.addi a0, 1 at 0x1000, c.j .+16 at 0x1002
    let mut cpu = CPU::new(false);
    let mut jit = JIT::new();
    cpu.memory.store_u16(0x1000, 0x0505).unwrap();
    cpu.memory.store_u16(0x1002, 0xA801).unwrap();
    cpu.set_entry(0x1000);
    assert!(matches!(cpu.step(&mut jit, None), Ok(None)));
    assert_eq!(cpu.get_reg(10), 1);
    assert_eq!(cpu.pc, 0x1002 + 16);
    assert_eq!(jit.tbs[0].instrs.len(), 2);
    assert_eq!(jit.tbs[0].instrs[0].1, 2);
}
