use simrv64i::insts::Inst;
use simrv64i::dbg::{reg_abi_name, freg_abi_name, fmt_dec_i64, fmt_hex_u64, dump_text_section};

fn disasm(raw: u32, addr: i64) -> String {
    let (inst, _) = Inst::parse(raw).unwrap();
    inst.print(addr)
}

#[test]
fn register_names() {
    assert_eq!(reg_abi_name(0), "zero");
    assert_eq!(reg_abi_name(1), "ra");
    assert_eq!(reg_abi_name(2), "sp");
    assert_eq!(reg_abi_name(10), "a0");
    assert_eq!(reg_abi_name(31), "t6");
    assert_eq!(freg_abi_name(0), "f0");
    assert_eq!(freg_abi_name(31), "f31");
}

#[test]
fn number_formatting() {
    assert_eq!(fmt_dec_i64(0), "0");
    assert_eq!(fmt_dec_i64(1234), "1234");
    assert_eq!(fmt_dec_i64(-42), "-42");
    assert_eq!(fmt_dec_i64(i64::MIN), "-9223372036854775808");
    assert_eq!(fmt_hex_u64(0), "0");
    assert_eq!(fmt_hex_u64(0xdeadbeef), "deadbeef");
}

#[test]
fn plain_instructions() {
    assert_eq!(disasm(0x02A58513, 0), "addi\ta0,a1,42");
    assert_eq!(disasm(0x12345537, 0), "lui\ta0,0x12345");
    assert_eq!(disasm(0x00000073, 0), "ecall");
    assert_eq!(disasm(0x00100073, 0), "ebreak");
}

#[test]
fn jumps_resolve_against_the_address() {
    // jal ra, +8 at 0x1000 lands at 0x1008
    assert_eq!(disasm(0x008000EF, 0x1000), "jal\tra,1008");
}

#[test]
fn pseudo_instructions() {
    // addi x0, x0, 0
    assert_eq!(disasm(0x00000013, 0), "nop");
    // addi a0, zero, -1
    assert_eq!(disasm(0xFFF00513, 0), "li\ta0,-1");
    // jalr zero, ra, 0
    assert_eq!(disasm(0x00008067, 0), "ret");
    // beq a0, zero, +0x40 at 0x1000
    assert_eq!(disasm(0x04050063, 0x1000), "beqz\ta0,1040");
}

#[test]
fn loads_and_stores() {
    // lw a0, -4(sp)
    let raw: u32 = (0xffc << 20) | (2 << 15) | (0b010 << 12) | (10 << 7) | 0b0000011;
    assert_eq!(disasm(raw, 0), "lw\ta0,-4(sp)");
    // sd a0, 16(sp)
    let raw2: u32 = (10 << 20) | (2 << 15) | (0b011 << 12) | (16 << 7) | 0b0100011;
    assert_eq!(disasm(raw2, 0), "sd\ta0,16(sp)");
}

#[test]
fn unknown_word_prints_question_marks() {
    assert_eq!(Inst::Unknown.print(0), "???");
}

#[test]
fn text_section_dump_lines() {
    // addi a0, a1, 42 as little-endian bytes
    let bytes: [u8; 4] = [0x13, 0x85, 0xA5, 0x02];
    let out = dump_text_section(&bytes, 0x1000);
    assert_eq!(out, "    1000:\t02a58513 \taddi\ta0,a1,42\n");
}

#[test]
fn text_section_dump_compressed_and_base() {
    // c.addi a0, 1 then addi a0, a1, 42
    let bytes: [u8; 6] = [0x05, 0x05, 0x13, 0x85, 0xA5, 0x02];
    let out = dump_text_section(&bytes, 0);
    assert_eq!(
        out,
        "       0:\t0505     \taddi\ta0,a0,1\n       2:\t02a58513 \taddi\ta0,a1,42\n"
    );
}
