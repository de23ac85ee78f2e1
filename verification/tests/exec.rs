use simrv64i::cpu::{CPU, Memory, SyscallAction, MEM_SIZE};
use simrv64i::insts::{Inst, ALU, Predicate, Error, alu_reg_value, alu_imm_value};

#[test]
fn memory_store_load_roundtrip() {
    let mut m = Memory::new();
    m.store_u16(0x10, 0xBEEF).unwrap();
    assert_eq!(m.load_u8(0x10).unwrap(), 0xEF);
    assert_eq!(m.load_u8(0x11).unwrap(), 0xBE);
    assert_eq!(m.load_u16(0x10).unwrap(), 0xBEEF);
    m.store_u64(0x20, 0x1122334455667788).unwrap();
    assert_eq!(m.load_u64(0x20).unwrap(), 0x1122334455667788);
    assert_eq!(m.load_u32(0x20).unwrap(), 0x55667788);
    assert_eq!(m.load_u32(0x24).unwrap(), 0x11223344);
    // unaligned access behaves like aligned
    m.store_u32(0x31, 0xCAFEBABE).unwrap();
    assert_eq!(m.load_u32(0x31).unwrap(), 0xCAFEBABE);
}

#[test]
fn memory_disjoint_stores() {
    let mut m = Memory::new();
    m.store_u64(0x100, 0xAAAAAAAAAAAAAAAA).unwrap();
    m.store_u64(0x108, 0xBBBBBBBBBBBBBBBB).unwrap();
    assert_eq!(m.load_u64(0x100).unwrap(), 0xAAAAAAAAAAAAAAAA);
    assert_eq!(m.load_u64(0x108).unwrap(), 0xBBBBBBBBBBBBBBBB);
}

#[test]
fn memory_copy_bulk() {
    let mut m = Memory::new();
    m.copy_bulk(0x40, &[1, 2, 3, 4]).unwrap();
    assert_eq!(m.load_u8(0x40).unwrap(), 1);
    assert_eq!(m.load_u8(0x43).unwrap(), 4);
    assert_eq!(m.load_u8(0x44).unwrap(), 0);
}

#[test]
fn memory_out_of_bounds_is_a_structured_failure() {
    let mut m = Memory::new();
    // a straddling access fails and changes nothing
    assert_eq!(m.load_u64(MEM_SIZE - 4), Err(Error::OutOfBounds));
    assert_eq!(m.load_u8(MEM_SIZE), Err(Error::OutOfBounds));
    assert_eq!(m.store_u32(MEM_SIZE - 2, 0xFFFF_FFFF), Err(Error::OutOfBounds));
    assert_eq!(m.load_u16(MEM_SIZE - 2).unwrap(), 0);
    assert_eq!(m.copy_bulk(MEM_SIZE as u64 - 1, &[1, 2]), Err(Error::OutOfBounds));
    assert_eq!(m.load_u8(MEM_SIZE - 1).unwrap(), 0);
}

#[test]
fn register_zero_is_hardwired() {
    let mut cpu = CPU::new(false);
    cpu.set_reg(0, 55);
    assert_eq!(cpu.get_reg(0), 0);
    cpu.set_reg(5, 55);
    assert_eq!(cpu.get_reg(5), 55);
}

#[test]
fn reg_offsets_and_nan_boxing() {
    let mut cpu = CPU::new(false);
    assert_eq!(cpu.get_reg_offset(3), 24);
    cpu.set_freg_bits32(2, 0x3F800000);
    assert_eq!(cpu.get_freg_bits(2), 0xFFFF_FFFF_3F80_0000);
    cpu.set_freg_bits64(3, 0x4000000000000000);
    assert_eq!(cpu.get_freg_bits(3), 0x4000000000000000);
}

#[test]
fn sign_extended_byte_load() {
    // store byte 0xFF at 0x100; an lb of it must yield all-ones
    let mut cpu = CPU::new(false);
    cpu.memory.store_u8(0x100, 0xFF).unwrap();
    let inst = Inst::Load { dst: 5, width: 1, base: 0, offset: 0x100, signext: true };
    assert!(matches!(inst.exec(4, &mut cpu), Ok(None)));
    assert_eq!(cpu.get_reg(5), 0xFFFF_FFFF_FFFF_FFFF);
}

#[test]
fn unsigned_byte_load() {
    let mut cpu = CPU::new(false);
    cpu.memory.store_u8(0x100, 0xFF).unwrap();
    let inst = Inst::Load { dst: 5, width: 1, base: 0, offset: 0x100, signext: false };
    assert!(matches!(inst.exec(4, &mut cpu), Ok(None)));
    assert_eq!(cpu.get_reg(5), 0xFF);
}

#[test]
fn branch_not_taken_advances_by_size() {
    // with regs[a] == regs[b] == 5, `bne a,b,+0x40` leaves pc at pc + 4
    let mut cpu = CPU::new(false);
    cpu.set_entry(0x1000);
    cpu.set_reg(10, 5);
    cpu.set_reg(11, 5);
    let inst = Inst::Branch { pred: Predicate::NE, src1: 10, src2: 11, offset: 0x40 };
    assert!(matches!(inst.exec(4, &mut cpu), Ok(None)));
    assert_eq!(cpu.pc, 0x1004);
}

#[test]
fn branch_taken_redirects() {
    let mut cpu = CPU::new(false);
    cpu.set_entry(0x1000);
    cpu.set_reg(10, 5);
    cpu.set_reg(11, 5);
    let inst = Inst::Branch { pred: Predicate::EQ, src1: 10, src2: 11, offset: 0x40 };
    assert!(matches!(inst.exec(4, &mut cpu), Ok(None)));
    assert_eq!(cpu.pc, 0x1040);
}

#[test]
fn jalr_clears_low_bit_and_links() {
    let mut cpu = CPU::new(false);
    cpu.set_entry(0x1000);
    cpu.set_reg(6, 0x2001);
    let inst = Inst::JumpAndLinkReg { dst: 1, base: 6, offset: 0 };
    assert!(matches!(inst.exec(4, &mut cpu), Ok(None)));
    assert_eq!(cpu.pc, 0x2000);
    assert_eq!(cpu.get_reg(1), 0x1004);
    assert_eq!(cpu.pc % 2, 0);
}

#[test]
fn load_out_of_bounds_traps() {
    let mut cpu = CPU::new(false);
    cpu.set_reg(6, MEM_SIZE as u64);
    let inst = Inst::Load { dst: 5, width: 8, base: 6, offset: 0, signext: false };
    assert_eq!(inst.exec(4, &mut cpu), Err(Error::OutOfBounds));
    assert_eq!(cpu.pc, 0);
}

#[test]
fn alu_division_follows_the_architecture() {
    // division by zero: all-ones quotient, dividend remainder
    assert_eq!(alu_reg_value(ALU::Div, 7, 0), u64::MAX);
    assert_eq!(alu_reg_value(ALU::Rem, 7, 0), 7);
    assert_eq!(alu_reg_value(ALU::DivU, 7, 0), u64::MAX);
    assert_eq!(alu_reg_value(ALU::RemU, 7, 0), 7);
    // overflow wraps to the minimum
    assert_eq!(
        alu_reg_value(ALU::Div, i64::MIN as u64, (-1i64) as u64),
        i64::MIN as u64
    );
    assert_eq!(alu_reg_value(ALU::Rem, i64::MIN as u64, (-1i64) as u64), 0);
    // plain signed division truncates toward zero
    assert_eq!(alu_reg_value(ALU::Div, (-7i64) as u64, 2), (-3i64) as u64);
    assert_eq!(alu_reg_value(ALU::Rem, (-7i64) as u64, 2), (-1i64) as u64);
    // 32-bit forms sign-extend their result
    assert_eq!(alu_reg_value(ALU::DivW, 0x8000_0000, (-1i32) as u32 as u64),
        0x8000_0000u32 as i32 as i64 as u64);
    assert_eq!(alu_reg_value(ALU::DivUW, 7, 0), u64::MAX);
}

#[test]
fn alu_shifts_mask_their_amounts() {
    assert_eq!(alu_reg_value(ALU::SLL, 1, 64), 1);
    assert_eq!(alu_reg_value(ALU::SLL, 1, 63), 1 << 63);
    assert_eq!(alu_reg_value(ALU::SRAW, 0x8000_0000, 1), 0xFFFF_FFFF_C000_0000);
    assert_eq!(alu_imm_value(ALU::SRA, (-8i64) as u64, 2), (-2i64) as u64);
    assert_eq!(alu_imm_value(ALU::AddW, 0x7FFF_FFFF, 1), 0xFFFF_FFFF_8000_0000);
}

#[test]
fn ecall_exit_carries_the_code() {
    let mut cpu = CPU::new(false);
    cpu.set_reg(10, 42);
    cpu.set_reg(17, 93);
    assert_eq!(cpu.ecall(4), Err(Error::Exit(42)));
}

#[test]
fn ecall_brk_is_ignored() {
    let mut cpu = CPU::new(false);
    cpu.set_entry(0x1000);
    cpu.set_reg(10, 77);
    cpu.set_reg(17, 214);
    assert!(matches!(cpu.ecall(4), Ok(None)));
    assert_eq!(cpu.get_reg(10), 0);
    assert_eq!(cpu.pc, 0x1004);
}

#[test]
fn ecall_write_extracts_bytes_and_remaps() {
    let mut cpu = CPU::new(false);
    cpu.remapped_filenos.insert(1, 7);
    cpu.memory.copy_bulk(0x100, b"abc").unwrap();
    cpu.set_reg(10, 1);
    cpu.set_reg(11, 0x100);
    cpu.set_reg(12, 3);
    cpu.set_reg(17, 64);
    match cpu.ecall(4) {
        Ok(Some(SyscallAction::Write { fd, bytes })) => {
            assert_eq!(fd, 7);
            assert_eq!(bytes, b"abc".to_vec());
        }
        other => panic!("unexpected ecall outcome: {:?}", other.is_ok()),
    }
}

#[test]
fn ecall_open_reads_nul_terminated_path() {
    let mut cpu = CPU::new(false);
    cpu.memory.copy_bulk(0x200, b"file.txt\0").unwrap();
    cpu.set_reg(10, 0x200);
    cpu.set_reg(11, 0);
    cpu.set_reg(17, 430);
    match cpu.ecall(4) {
        Ok(Some(SyscallAction::Open { path, flags })) => {
            assert_eq!(path, b"file.txt".to_vec());
            assert_eq!(flags, 0);
        }
        other => panic!("unexpected ecall outcome: {:?}", other.is_ok()),
    }
}

#[test]
fn ecall_unknown_number_fails() {
    let mut cpu = CPU::new(false);
    cpu.set_reg(17, 9999);
    assert_eq!(cpu.ecall(4), Err(Error::Unimplemented("unknown syscall")));
}
