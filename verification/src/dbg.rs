//! Disassembly: one line of text per decoded instruction, using the
//! RISC-V ABI register names and the canonical pseudo-instruction
//! spellings.

use vstd::prelude::*;
use crate::insts::{Inst, ALU, Predicate, Reg, FReg, REG_ZR, REG_RA, lemma_cast_i64_u64};

verus! {

/// The ABI name of a general-purpose register.
pub open spec fn spec_reg_abi_name(reg: Reg) -> Seq<char> {
    if reg == 0 { "zero"@ }
    else if reg == 1 { "ra"@ } else if reg == 2 { "sp"@ }
    else if reg == 3 { "gp"@ } else if reg == 4 { "tp"@ }
    else if reg == 5 { "t0"@ } else if reg == 6 { "t1"@ }
    else if reg == 7 { "t2"@ } else if reg == 8 { "s0"@ }
    else if reg == 9 { "s1"@ } else if reg == 10 { "a0"@ }
    else if reg == 11 { "a1"@ } else if reg == 12 { "a2"@ }
    else if reg == 13 { "a3"@ } else if reg == 14 { "a4"@ }
    else if reg == 15 { "a5"@ } else if reg == 16 { "a6"@ }
    else if reg == 17 { "a7"@ } else if reg == 18 { "s2"@ }
    else if reg == 19 { "s3"@ } else if reg == 20 { "s4"@ }
    else if reg == 21 { "s5"@ } else if reg == 22 { "s6"@ }
    else if reg == 23 { "s7"@ } else if reg == 24 { "s8"@ }
    else if reg == 25 { "s9"@ } else if reg == 26 { "s10"@ }
    else if reg == 27 { "s11"@ } else if reg == 28 { "t3"@ }
    else if reg == 29 { "t4"@ } else if reg == 30 { "t5"@ }
    else { "t6"@ }
}

/// The ABI name of a general-purpose register. RISC-V has 32 of them.
pub fn reg_abi_name(reg: Reg) -> (r: &'static str)
    requires
        reg < 32,
    ensures
        r@ == spec_reg_abi_name(reg),
{
    if reg == 0 { "zero" }
    else if reg == 1 { "ra" } else if reg == 2 { "sp" }
    else if reg == 3 { "gp" } else if reg == 4 { "tp" }
    else if reg == 5 { "t0" } else if reg == 6 { "t1" }
    else if reg == 7 { "t2" } else if reg == 8 { "s0" }
    else if reg == 9 { "s1" } else if reg == 10 { "a0" }
    else if reg == 11 { "a1" } else if reg == 12 { "a2" }
    else if reg == 13 { "a3" } else if reg == 14 { "a4" }
    else if reg == 15 { "a5" } else if reg == 16 { "a6" }
    else if reg == 17 { "a7" } else if reg == 18 { "s2" }
    else if reg == 19 { "s3" } else if reg == 20 { "s4" }
    else if reg == 21 { "s5" } else if reg == 22 { "s6" }
    else if reg == 23 { "s7" } else if reg == 24 { "s8" }
    else if reg == 25 { "s9" } else if reg == 26 { "s10" }
    else if reg == 27 { "s11" } else if reg == 28 { "t3" }
    else if reg == 29 { "t4" } else if reg == 30 { "t5" }
    else { "t6" }
}

/// The ABI name of a floating-point register.
pub open spec fn spec_freg_abi_name(reg: FReg) -> Seq<char> {
    seq!['f'] + spec_dec_nat(reg as nat)
}

/// The ABI name of a floating-point register.
pub fn freg_abi_name(reg: FReg) -> (r: String)
    requires
        reg < 32,
    ensures
        r@ == spec_freg_abi_name(reg),
{
    let mut s = new_string();
    s.append("f");
    let d = fmt_dec_u64(reg as u64);
    s.append(d.as_str());
    proof {
        reveal_strlit("f");
        assert(s@ =~= spec_freg_abi_name(reg));
    }
    s
}

/// The character for one digit value (base up to 16).
pub open spec fn spec_digit(d: nat) -> char {
    if d == 0 { '0' } else if d == 1 { '1' } else if d == 2 { '2' }
    else if d == 3 { '3' } else if d == 4 { '4' } else if d == 5 { '5' }
    else if d == 6 { '6' } else if d == 7 { '7' } else if d == 8 { '8' }
    else if d == 9 { '9' } else if d == 10 { 'a' } else if d == 11 { 'b' }
    else if d == 12 { 'c' } else if d == 13 { 'd' } else if d == 14 { 'e' }
    else { 'f' }
}

/// The decimal digits of a natural number, most significant first.
pub open spec fn spec_dec_nat(n: nat) -> Seq<char>
    decreases n,
{
    if n < 10 {
        seq![spec_digit(n)]
    } else {
        spec_dec_nat(n / 10) + seq![spec_digit(n % 10)]
    }
}

/// The decimal digits of a signed value, with a leading minus sign when
/// negative.
pub open spec fn spec_dec_int(v: int) -> Seq<char> {
    if v < 0 {
        seq!['-'] + spec_dec_nat((-v) as nat)
    } else {
        spec_dec_nat(v as nat)
    }
}

/// The lower-case hexadecimal digits of a natural number.
pub open spec fn spec_hex_nat(n: nat) -> Seq<char>
    decreases n,
{
    if n < 16 {
        seq![spec_digit(n)]
    } else {
        spec_hex_nat(n / 16) + seq![spec_digit(n % 16)]
    }
}

fn new_string() -> (r: String)
    ensures
        r@ == Seq::<char>::empty(),
{
    String::new()
}

fn digit_str(d: u64) -> (r: &'static str)
    requires
        d < 16,
    ensures
        r@ == seq![spec_digit(d as nat)],
{
    proof {
        reveal_strlit("0"); reveal_strlit("1"); reveal_strlit("2"); reveal_strlit("3");
        reveal_strlit("4"); reveal_strlit("5"); reveal_strlit("6"); reveal_strlit("7");
        reveal_strlit("8"); reveal_strlit("9"); reveal_strlit("a"); reveal_strlit("b");
        reveal_strlit("c"); reveal_strlit("d"); reveal_strlit("e"); reveal_strlit("f");
        assert("0"@ =~= seq!['0']); assert("1"@ =~= seq!['1']);
        assert("2"@ =~= seq!['2']); assert("3"@ =~= seq!['3']);
        assert("4"@ =~= seq!['4']); assert("5"@ =~= seq!['5']);
        assert("6"@ =~= seq!['6']); assert("7"@ =~= seq!['7']);
        assert("8"@ =~= seq!['8']); assert("9"@ =~= seq!['9']);
        assert("a"@ =~= seq!['a']); assert("b"@ =~= seq!['b']);
        assert("c"@ =~= seq!['c']); assert("d"@ =~= seq!['d']);
        assert("e"@ =~= seq!['e']); assert("f"@ =~= seq!['f']);
    }
    if d == 0 { "0" } else if d == 1 { "1" } else if d == 2 { "2" }
    else if d == 3 { "3" } else if d == 4 { "4" } else if d == 5 { "5" }
    else if d == 6 { "6" } else if d == 7 { "7" } else if d == 8 { "8" }
    else if d == 9 { "9" } else if d == 10 { "a" } else if d == 11 { "b" }
    else if d == 12 { "c" } else if d == 13 { "d" } else if d == 14 { "e" }
    else { "f" }
}

/// Format a number in decimal.
pub fn fmt_dec_u64(n: u64) -> (r: String)
    ensures
        r@ == spec_dec_nat(n as nat),
    decreases n,
{
    if n < 10 {
        let mut s = new_string();
        s.append(digit_str(n));
        proof {
            assert(s@ =~= seq![spec_digit(n as nat)]);
        }
        s
    } else {
        let mut s = fmt_dec_u64(n / 10);
        s.append(digit_str(n % 10));
        s
    }
}

/// Format a signed number in decimal, with a minus sign when negative.
pub fn fmt_dec_i64(v: i64) -> (r: String)
    ensures
        r@ == spec_dec_int(v as int),
{
    if v >= 0 {
        fmt_dec_u64(v as u64)
    } else {
        proof {
            lemma_cast_i64_u64(v);
        }
        let m: u64 = 0u64.wrapping_sub(v as u64);
        let d = fmt_dec_u64(m);
        let mut s = new_string();
        s.append("-");
        s.append(d.as_str());
        proof {
            reveal_strlit("-");
            assert("-"@ =~= seq!['-']);
            assert(s@ =~= spec_dec_int(v as int));
        }
        s
    }
}

/// Format a number in lower-case hexadecimal.
pub fn fmt_hex_u64(n: u64) -> (r: String)
    ensures
        r@ == spec_hex_nat(n as nat),
    decreases n,
{
    if n < 16 {
        let mut s = new_string();
        s.append(digit_str(n));
        proof {
            assert(s@ =~= seq![spec_digit(n as nat)]);
        }
        s
    } else {
        let mut s = fmt_hex_u64(n / 16);
        s.append(digit_str(n % 16));
        s
    }
}

/// The mnemonic of an ALU register-register operation.
pub open spec fn spec_alu_name(op: ALU) -> Seq<char> {
    match op {
        ALU::Add => "add"@, ALU::AddW => "addw"@,
        ALU::Sub => "sub"@, ALU::SubW => "subw"@,
        ALU::And => "and"@, ALU::Or => "or"@, ALU::XOr => "xor"@,
        ALU::SLT => "slt"@, ALU::SLTU => "sltu"@,
        ALU::SLL => "sll"@, ALU::SLLW => "sllw"@,
        ALU::SRL => "srl"@, ALU::SRLW => "srlw"@,
        ALU::SRA => "sra"@, ALU::SRAW => "sraw"@,
        ALU::Mul => "mul"@, ALU::MulW => "mulw"@,
        ALU::Div => "div"@, ALU::DivW => "divw"@,
        ALU::DivU => "divu"@, ALU::DivUW => "divuw"@,
        ALU::Rem => "rem"@, ALU::RemW => "remw"@,
        ALU::RemU => "remu"@, ALU::RemUW => "remuw"@,
    }
}

fn alu_name(op: ALU) -> (r: &'static str)
    ensures
        r@ == spec_alu_name(op),
{
    match op {
        ALU::Add => "add", ALU::AddW => "addw",
        ALU::Sub => "sub", ALU::SubW => "subw",
        ALU::And => "and", ALU::Or => "or", ALU::XOr => "xor",
        ALU::SLT => "slt", ALU::SLTU => "sltu",
        ALU::SLL => "sll", ALU::SLLW => "sllw",
        ALU::SRL => "srl", ALU::SRLW => "srlw",
        ALU::SRA => "sra", ALU::SRAW => "sraw",
        ALU::Mul => "mul", ALU::MulW => "mulw",
        ALU::Div => "div", ALU::DivW => "divw",
        ALU::DivU => "divu", ALU::DivUW => "divuw",
        ALU::Rem => "rem", ALU::RemW => "remw",
        ALU::RemU => "remu", ALU::RemUW => "remuw",
    }
}

/// The mnemonic of an ALU-with-immediate operation (the shift forms are
/// rendered separately).
pub open spec fn spec_alui_name(op: ALU) -> Seq<char> {
    match op {
        ALU::Add => "addi"@, ALU::AddW => "addiw"@,
        ALU::And => "andi"@, ALU::Or => "ori"@, ALU::XOr => "xori"@,
        ALU::SLT => "slti"@, ALU::SLTU => "sltiu"@,
        _ => ""@,
    }
}

/// The mnemonic of a branch predicate.
pub open spec fn spec_pred_name(pred: Predicate) -> Seq<char> {
    match pred {
        Predicate::EQ => "eq"@, Predicate::NE => "ne"@,
        Predicate::LT => "lt"@, Predicate::LTU => "ltu"@,
        Predicate::GE => "ge"@, Predicate::GEU => "geu"@,
    }
}

/// Whether the disassembler renders this instruction: everything the
/// decoder produces, plus the `Unknown` placeholder and the
/// floating-point load/store forms. Floating-point compute and the
/// immediate forms of multiply/divide (which have no encoding) are not
/// rendered.
pub open spec fn printable(inst: Inst) -> bool {
    inst.wf() && match inst {
        Inst::FComp { .. } => false,
        Inst::FMADD { .. } => false,
        Inst::FMSUB { .. } => false,
        Inst::ALUImm { op, .. } =>
            op == ALU::Add || op == ALU::AddW || op == ALU::And || op == ALU::Or
            || op == ALU::XOr || op == ALU::SLT || op == ALU::SLTU
            || op == ALU::SLL || op == ALU::SLLW || op == ALU::SRL
            || op == ALU::SRLW || op == ALU::SRA || op == ALU::SRAW,
        _ => true,
    }
}

/// Everything the decoder produces is renderable.
pub proof fn lemma_parse_printable(word: u32)
    ensures
        crate::insts::spec_parse_instruction(word) matches Ok(p) ==> printable(p.0),
{
    crate::insts::lemma_parse_instruction_wf(word);
}

/// The jump or branch destination as printed: the instruction's address
/// plus its offset, in hexadecimal two's complement.
pub open spec fn spec_target_hex(address: i64, offset: i32) -> Seq<char> {
    spec_hex_nat((vstd::wrapping::i64_specs::wrapping_add(address, offset as i64) as u64) as nat)
}

/// The disassembly text of one instruction at a given address:
/// `MNEMONIC OPERANDS` with a tab after the mnemonic, registers by
/// their ABI names, and the canonical pseudo-instruction spellings
/// (`nop`, `mv`, `li`, `ret`, `j`, the zero-comparison branches, `not`,
/// `neg`, `negw`, `sext.w`, `zext.b`, `seqz`, `snez`).
pub open spec fn spec_disasm(inst: Inst, address: i64) -> Seq<char> {
    match inst {
        Inst::Load { dst, width, base, offset, signext } =>
            "l"@
            + (if width == 1 { "b"@ } else if width == 2 { "h"@ }
               else if width == 4 { "w"@ } else { "d"@ })
            + (if signext { ""@ } else { "u"@ })
            + "\t"@ + spec_reg_abi_name(dst) + ","@ + spec_dec_int(offset as int)
            + "("@ + spec_reg_abi_name(base) + ")"@,
        Inst::Store { src, width, base, offset } =>
            "s"@
            + (if width == 1 { "b"@ } else if width == 2 { "h"@ }
               else if width == 4 { "w"@ } else { "d"@ })
            + "\t"@ + spec_reg_abi_name(src) + ","@ + spec_dec_int(offset as int)
            + "("@ + spec_reg_abi_name(base) + ")"@,
        Inst::JumpAndLink { dst, offset } =>
            if dst == REG_ZR {
                "j\t"@ + spec_target_hex(address, offset)
            } else {
                "jal\t"@ + spec_reg_abi_name(dst) + ","@ + spec_target_hex(address, offset)
            },
        Inst::JumpAndLinkReg { dst, base, offset } =>
            if dst == REG_ZR && base == REG_RA && offset == 0 {
                "ret"@
            } else if dst == REG_ZR && offset == 0 {
                "jr\t"@ + spec_reg_abi_name(base)
            } else if dst == REG_RA && offset == 0 {
                "jalr\t"@ + spec_reg_abi_name(base)
            } else {
                "jalr\t"@ + spec_reg_abi_name(dst) + ","@ + spec_reg_abi_name(base)
                + ","@ + spec_hex_nat((offset as u32) as nat)
            },
        Inst::Branch { pred, src1, src2, offset } =>
            if pred == Predicate::EQ && src2 == REG_ZR {
                "beqz\t"@ + spec_reg_abi_name(src1) + ","@ + spec_target_hex(address, offset)
            } else if pred == Predicate::NE && src2 == REG_ZR {
                "bnez\t"@ + spec_reg_abi_name(src1) + ","@ + spec_target_hex(address, offset)
            } else if pred == Predicate::GE && src1 == REG_ZR {
                "blez\t"@ + spec_reg_abi_name(src2) + ","@ + spec_target_hex(address, offset)
            } else if pred == Predicate::GE && src2 == REG_ZR {
                "bgez\t"@ + spec_reg_abi_name(src1) + ","@ + spec_target_hex(address, offset)
            } else if pred == Predicate::LT && src2 == REG_ZR {
                "bltz\t"@ + spec_reg_abi_name(src1) + ","@ + spec_target_hex(address, offset)
            } else if pred == Predicate::LT && src1 == REG_ZR {
                "bgtz\t"@ + spec_reg_abi_name(src2) + ","@ + spec_target_hex(address, offset)
            } else {
                "b"@ + spec_pred_name(pred) + "\t"@ + spec_reg_abi_name(src1) + ","@
                + spec_reg_abi_name(src2) + ","@ + spec_target_hex(address, offset)
            },
        Inst::ECall { .. } => "ecall"@,
        Inst::EBreak { .. } => "ebreak"@,
        Inst::LoadUpperImmediate { dst, imm } =>
            "lui\t"@ + spec_reg_abi_name(dst) + ",0x"@ + spec_hex_nat((imm >> 12) as nat),
        Inst::AddUpperImmediateToPC { dst, imm } =>
            "auipc\t"@ + spec_reg_abi_name(dst) + ",0x"@ + spec_hex_nat((imm >> 12) as nat),
        Inst::CtrlStatusReg { .. } => "csr ???"@,
        Inst::ALUImm { op, dst, src1, imm } =>
            if op == ALU::Add && dst == REG_ZR && src1 == REG_ZR && imm == 0 {
                "nop"@
            } else if op == ALU::Add && src1 == REG_ZR {
                "li\t"@ + spec_reg_abi_name(dst) + ","@ + spec_dec_int(imm as i32 as int)
            } else if op == ALU::Add && imm == 0 {
                "mv\t"@ + spec_reg_abi_name(dst) + ","@ + spec_reg_abi_name(src1)
            } else if op == ALU::XOr && imm == 0xffff_ffffu32 {
                "not\t"@ + spec_reg_abi_name(dst) + ","@ + spec_reg_abi_name(src1)
            } else if op == ALU::AddW && imm == 0 {
                "sext.w\t"@ + spec_reg_abi_name(dst) + ","@ + spec_reg_abi_name(src1)
            } else if op == ALU::And && imm == 255 {
                "zext.b\t"@ + spec_reg_abi_name(dst) + ","@ + spec_reg_abi_name(src1)
            } else if op == ALU::SLTU && imm == 1 {
                "seqz\t"@ + spec_reg_abi_name(dst) + ","@ + spec_reg_abi_name(src1)
            } else if op == ALU::SLL || op == ALU::SLLW || op == ALU::SRL
                || op == ALU::SRLW || op == ALU::SRA || op == ALU::SRAW {
                (if op == ALU::SLL { "slli"@ } else if op == ALU::SLLW { "slliw"@ }
                 else if op == ALU::SRL { "srli"@ } else if op == ALU::SRLW { "srliw"@ }
                 else if op == ALU::SRA { "srai"@ } else { "sraiw"@ })
                + "\t"@ + spec_reg_abi_name(dst) + ","@ + spec_reg_abi_name(src1)
                + ",0x"@ + spec_hex_nat(imm as nat)
            } else {
                spec_alui_name(op) + "\t"@ + spec_reg_abi_name(dst) + ","@
                + spec_reg_abi_name(src1) + ","@ + spec_dec_int(imm as i32 as int)
            },
        Inst::ALUReg { op, dst, src1, src2 } =>
            if op == ALU::Add && src1 == REG_ZR {
                "mv\t"@ + spec_reg_abi_name(dst) + ","@ + spec_reg_abi_name(src2)
            } else if op == ALU::Sub && src1 == REG_ZR {
                "neg\t"@ + spec_reg_abi_name(dst) + ","@ + spec_reg_abi_name(src2)
            } else if op == ALU::SubW && src1 == REG_ZR {
                "negw\t"@ + spec_reg_abi_name(dst) + ","@ + spec_reg_abi_name(src2)
            } else if op == ALU::SLTU && src1 == REG_ZR {
                "snez\t"@ + spec_reg_abi_name(dst) + ","@ + spec_reg_abi_name(src2)
            } else {
                spec_alu_name(op) + "\t"@ + spec_reg_abi_name(dst) + ","@
                + spec_reg_abi_name(src1) + ","@ + spec_reg_abi_name(src2)
            },
        Inst::Unknown => "???"@,
        Inst::LoadFP { dst, width, base, offset } =>
            (if width == 4 { "flw"@ } else { "fld"@ })
            + "\t"@ + spec_freg_abi_name(dst) + ","@ + spec_dec_int(offset as int)
            + "("@ + spec_reg_abi_name(base) + ")"@,
        Inst::StoreFP { src, width, base, offset } =>
            (if width == 4 { "fsw"@ } else { "fsd"@ })
            + "\t"@ + spec_freg_abi_name(src) + ","@ + spec_dec_int(offset as int)
            + "("@ + spec_reg_abi_name(base) + ")"@,
        _ => Seq::<char>::empty(),
    }
}

/// `s` left-padded with `c` to width `w`.
pub open spec fn spec_pad_left(s: Seq<char>, w: nat, c: char) -> Seq<char> {
    if s.len() >= w {
        s
    } else {
        Seq::new((w - s.len()) as nat, |i: int| c) + s
    }
}

fn pad_left(s: String, w: usize, pad: &str) -> (r: String)
    requires
        pad@.len() == 1,
    ensures
        r@ == spec_pad_left(s@, w as nat, pad@[0]),
{
    let n: usize = s.as_str().unicode_len();
    let mut out = new_string();
    let mut k: usize = n;
    while k < w
        invariant
            n <= k,
            n == s@.len(),
            k <= w || k == n,
            pad@.len() == 1,
            out@ =~= Seq::new((k - n) as nat, |i: int| pad@[0]),
        decreases w - k,
    {
        out.append(pad);
        proof {
            assert(out@ =~= Seq::new((k + 1 - n) as nat, |i: int| pad@[0]));
        }
        k = k + 1;
    }
    out.append(s.as_str());
    proof {
        assert(out@ =~= spec_pad_left(s@, w as nat, pad@[0]));
    }
    out
}

/// The code word at `off`: up to four bytes little-endian; a trailing
/// two-byte tail is read with zeroes above it.
pub open spec fn spec_text_word(bytes: Seq<u8>, off: int) -> u32 {
    if off + 4 <= bytes.len() {
        (bytes[off] as u32)
        | ((bytes[off + 1] as u32) << 8)
        | ((bytes[off + 2] as u32) << 16)
        | ((bytes[off + 3] as u32) << 24)
    } else {
        (bytes[off] as u32)
        | ((bytes[off + 1] as u32) << 8)
    }
}

/// The disassembly of a code section from `off` on: one line per
/// instruction, `ADDR:<tab>HEX<tab>MNEMONIC OPERANDS`, the address
/// space-padded to eight digits and the raw word zero-padded (four
/// digits and extra spacing for compressed instructions, eight for base
/// ones). A word that does not decode is shown as `???`, stepping by
/// its encoding-length bit.
pub open spec fn spec_dump_text(bytes: Seq<u8>, base: u64, off: int) -> Seq<char>
    decreases bytes.len() + 4 - off
        when 0 <= off
{
    if off + 2 >= bytes.len() {
        Seq::<char>::empty()
    } else {
        let w = spec_text_word(bytes, off);
        let p = match crate::insts::spec_parse_instruction(w) {
            Ok(p) => p,
            Err(_) => (Inst::Unknown, if bytes[off] & 0b11 == 0b11 { 4usize } else { 2 }),
        };
        let step: int = if p.1 == 2 { 2 } else { 4 };
        let addr = vstd::wrapping::u64_specs::wrapping_add(base, off as u64);
        let line = spec_pad_left(spec_hex_nat(addr as nat), 8, ' ') + ":\t"@
            + (if step == 2 {
                spec_pad_left(spec_hex_nat((w & 0xffff) as nat), 4, '0') + "     \t"@
            } else {
                spec_pad_left(spec_hex_nat(w as nat), 8, '0') + " \t"@
            })
            + spec_disasm(p.0, addr as i64) + "\n"@;
        line + spec_dump_text(bytes, base, off + step)
    }
}

/// Disassemble a whole code section, whose bytes stand at guest address
/// `base`.
#[verifier::rlimit(100)]
pub fn dump_text_section(bytes: &[u8], base: u64) -> (r: String)
    requires
        bytes@.len() <= 0x100_0000,
    ensures
        r@ == spec_dump_text(bytes@, base, 0),
{
    proof {
        reveal_strlit(" ");
        reveal_strlit("0");
        assert(" "@ =~= seq![' ']);
        assert("0"@ =~= seq!['0']);
    }
    let mut out = new_string();
    let mut off: usize = 0;
    proof {
        assert(out@ + spec_dump_text(bytes@, base, 0) =~= spec_dump_text(bytes@, base, 0));
    }
    while off + 2 < bytes.len()
        invariant
            0 <= off <= bytes@.len() + 2,
            bytes@.len() <= 0x100_0000,
            out@ + spec_dump_text(bytes@, base, off as int) =~= spec_dump_text(bytes@, base, 0),
        decreases bytes@.len() + 4 - off,
    {
        proof {
            reveal_strlit(" ");
            reveal_strlit("0");
            assert(" "@ =~= seq![' ']);
            assert("0"@ =~= seq!['0']);
        }
        let w: u32 = if off + 4 <= bytes.len() {
            (bytes[off] as u32)
            | ((bytes[off + 1] as u32) << 8)
            | ((bytes[off + 2] as u32) << 16)
            | ((bytes[off + 3] as u32) << 24)
        } else {
            (bytes[off] as u32)
            | ((bytes[off + 1] as u32) << 8)
        };
        proof {
            crate::insts::lemma_parse_instruction_wf(w);
            lemma_parse_printable(w);
        }
        let (inst, step): (Inst, usize) = match Inst::parse(w) {
            Ok((inst, size)) => (inst, size),
            Err(_) => (Inst::Unknown, if bytes[off] & 0b11 == 0b11 { 4 } else { 2 }),
        };
        let step: usize = if step == 2 { 2 } else { 4 };
        let addr: u64 = base.wrapping_add(off as u64);
        let ghost out_pre = out@;
        let mut line = new_string();
        let line_start = pad_left(fmt_hex_u64(addr), 8, " ");
        line.append(line_start.as_str());
        line.append(":\t");
        if step == 2 {
            let hx = pad_left(fmt_hex_u64((w & 0xffff) as u64), 4, "0");
            line.append(hx.as_str());
            line.append("     \t");
        } else {
            let hx = pad_left(fmt_hex_u64(w as u64), 8, "0");
            line.append(hx.as_str());
            line.append(" \t");
        }
        let text = inst.print(addr as i64);
        line.append(text.as_str());
        line.append("\n");
        let ghost line_spec = spec_pad_left(spec_hex_nat(addr as nat), 8, ' ') + ":\t"@
            + (if step == 2 {
                spec_pad_left(spec_hex_nat((w & 0xffff) as nat), 4, '0') + "     \t"@
            } else {
                spec_pad_left(spec_hex_nat(w as nat), 8, '0') + " \t"@
            })
            + spec_disasm(inst, addr as i64) + "\n"@;
        proof {
            assert(line@ =~= line_spec);
            assert(spec_dump_text(bytes@, base, off as int)
                == line_spec + spec_dump_text(bytes@, base, off + step));
        }
        out.append(line.as_str());
        proof {
            assert(out@ + spec_dump_text(bytes@, base, off + step)
                =~= (out_pre + spec_dump_text(bytes@, base, off as int)));
        }
        off = off + step;
    }
    out
}

impl Inst {
    /// Disassemble this instruction as it stands at `address` (the
    /// address resolves the destinations of jumps and branches).
    pub fn print(&self, address: i64) -> (r: String)
        requires
            printable(*self),
        ensures
            r@ == spec_disasm(*self, address),
    {
        let mut s = new_string();
        match *self {
            Inst::Load { dst, width, base, offset, signext } => {
                s.append("l");
                s.append(if width == 1 { "b" } else if width == 2 { "h" }
                    else if width == 4 { "w" } else { "d" });
                s.append(if signext { "" } else { "u" });
                s.append("\t");
                s.append(reg_abi_name(dst));
                s.append(",");
                let d = fmt_dec_i64(offset as i64);
                s.append(d.as_str());
                s.append("(");
                s.append(reg_abi_name(base));
                s.append(")");
            },
            Inst::Store { src, width, base, offset } => {
                s.append("s");
                s.append(if width == 1 { "b" } else if width == 2 { "h" }
                    else if width == 4 { "w" } else { "d" });
                s.append("\t");
                s.append(reg_abi_name(src));
                s.append(",");
                let d = fmt_dec_i64(offset as i64);
                s.append(d.as_str());
                s.append("(");
                s.append(reg_abi_name(base));
                s.append(")");
            },
            Inst::JumpAndLink { dst, offset } => {
                let t = fmt_hex_u64(address.wrapping_add(offset as i64) as u64);
                if dst == REG_ZR {
                    s.append("j\t");
                    s.append(t.as_str());
                } else {
                    s.append("jal\t");
                    s.append(reg_abi_name(dst));
                    s.append(",");
                    s.append(t.as_str());
                }
            },
            Inst::JumpAndLinkReg { dst, base, offset } => {
                if dst == REG_ZR && base == REG_RA && offset == 0 {
                    s.append("ret");
                } else if dst == REG_ZR && offset == 0 {
                    s.append("jr\t");
                    s.append(reg_abi_name(base));
                } else if dst == REG_RA && offset == 0 {
                    s.append("jalr\t");
                    s.append(reg_abi_name(base));
                } else {
                    s.append("jalr\t");
                    s.append(reg_abi_name(dst));
                    s.append(",");
                    s.append(reg_abi_name(base));
                    s.append(",");
                    let h = fmt_hex_u64(offset as u32 as u64);
                    s.append(h.as_str());
                }
            },
            Inst::Branch { pred, src1, src2, offset } => {
                let t = fmt_hex_u64(address.wrapping_add(offset as i64) as u64);
                if pred == Predicate::EQ && src2 == REG_ZR {
                    s.append("beqz\t");
                    s.append(reg_abi_name(src1));
                } else if pred == Predicate::NE && src2 == REG_ZR {
                    s.append("bnez\t");
                    s.append(reg_abi_name(src1));
                } else if pred == Predicate::GE && src1 == REG_ZR {
                    s.append("blez\t");
                    s.append(reg_abi_name(src2));
                } else if pred == Predicate::GE && src2 == REG_ZR {
                    s.append("bgez\t");
                    s.append(reg_abi_name(src1));
                } else if pred == Predicate::LT && src2 == REG_ZR {
                    s.append("bltz\t");
                    s.append(reg_abi_name(src1));
                } else if pred == Predicate::LT && src1 == REG_ZR {
                    s.append("bgtz\t");
                    s.append(reg_abi_name(src2));
                } else {
                    s.append("b");
                    s.append(match pred {
                        Predicate::EQ => "eq", Predicate::NE => "ne",
                        Predicate::LT => "lt", Predicate::LTU => "ltu",
                        Predicate::GE => "ge", Predicate::GEU => "geu",
                    });
                    s.append("\t");
                    s.append(reg_abi_name(src1));
                    s.append(",");
                    s.append(reg_abi_name(src2));
                }
                s.append(",");
                s.append(t.as_str());
                proof {
                    assert(s@ =~= spec_disasm(*self, address));
                }
            },
            Inst::ECall { .. } => {
                s.append("ecall");
            },
            Inst::EBreak { .. } => {
                s.append("ebreak");
            },
            Inst::LoadUpperImmediate { dst, imm } => {
                s.append("lui\t");
                s.append(reg_abi_name(dst));
                s.append(",0x");
                let h = fmt_hex_u64((imm >> 12) as u64);
                s.append(h.as_str());
            },
            Inst::AddUpperImmediateToPC { dst, imm } => {
                s.append("auipc\t");
                s.append(reg_abi_name(dst));
                s.append(",0x");
                let h = fmt_hex_u64((imm >> 12) as u64);
                s.append(h.as_str());
            },
            Inst::CtrlStatusReg { .. } => {
                s.append("csr ???");
            },
            Inst::ALUImm { op, dst, src1, imm } => {
                if op == ALU::Add && dst == REG_ZR && src1 == REG_ZR && imm == 0 {
                    s.append("nop");
                } else if op == ALU::Add && src1 == REG_ZR {
                    s.append("li\t");
                    s.append(reg_abi_name(dst));
                    s.append(",");
                    let d = fmt_dec_i64(imm as i32 as i64);
                    s.append(d.as_str());
                } else if op == ALU::Add && imm == 0 {
                    s.append("mv\t");
                    s.append(reg_abi_name(dst));
                    s.append(",");
                    s.append(reg_abi_name(src1));
                } else if op == ALU::XOr && imm == 0xffff_ffffu32 {
                    s.append("not\t");
                    s.append(reg_abi_name(dst));
                    s.append(",");
                    s.append(reg_abi_name(src1));
                } else if op == ALU::AddW && imm == 0 {
                    s.append("sext.w\t");
                    s.append(reg_abi_name(dst));
                    s.append(",");
                    s.append(reg_abi_name(src1));
                } else if op == ALU::And && imm == 255 {
                    s.append("zext.b\t");
                    s.append(reg_abi_name(dst));
                    s.append(",");
                    s.append(reg_abi_name(src1));
                } else if op == ALU::SLTU && imm == 1 {
                    s.append("seqz\t");
                    s.append(reg_abi_name(dst));
                    s.append(",");
                    s.append(reg_abi_name(src1));
                } else if op == ALU::SLL || op == ALU::SLLW || op == ALU::SRL
                    || op == ALU::SRLW || op == ALU::SRA || op == ALU::SRAW {
                    s.append(if op == ALU::SLL { "slli" }
                        else if op == ALU::SLLW { "slliw" }
                        else if op == ALU::SRL { "srli" }
                        else if op == ALU::SRLW { "srliw" }
                        else if op == ALU::SRA { "srai" } else { "sraiw" });
                    s.append("\t");
                    s.append(reg_abi_name(dst));
                    s.append(",");
                    s.append(reg_abi_name(src1));
                    s.append(",0x");
                    let h = fmt_hex_u64(imm as u64);
                    s.append(h.as_str());
                } else {
                    s.append(match op {
                        ALU::Add => "addi", ALU::AddW => "addiw",
                        ALU::And => "andi", ALU::Or => "ori", ALU::XOr => "xori",
                        ALU::SLT => "slti", ALU::SLTU => "sltiu",
                        _ => "",
                    });
                    s.append("\t");
                    s.append(reg_abi_name(dst));
                    s.append(",");
                    s.append(reg_abi_name(src1));
                    s.append(",");
                    let d = fmt_dec_i64(imm as i32 as i64);
                    s.append(d.as_str());
                }
                proof {
                    assert(s@ =~= spec_disasm(*self, address));
                }
            },
            Inst::ALUReg { op, dst, src1, src2 } => {
                if op == ALU::Add && src1 == REG_ZR {
                    s.append("mv\t");
                    s.append(reg_abi_name(dst));
                    s.append(",");
                    s.append(reg_abi_name(src2));
                } else if op == ALU::Sub && src1 == REG_ZR {
                    s.append("neg\t");
                    s.append(reg_abi_name(dst));
                    s.append(",");
                    s.append(reg_abi_name(src2));
                } else if op == ALU::SubW && src1 == REG_ZR {
                    s.append("negw\t");
                    s.append(reg_abi_name(dst));
                    s.append(",");
                    s.append(reg_abi_name(src2));
                } else if op == ALU::SLTU && src1 == REG_ZR {
                    s.append("snez\t");
                    s.append(reg_abi_name(dst));
                    s.append(",");
                    s.append(reg_abi_name(src2));
                } else {
                    s.append(alu_name(op));
                    s.append("\t");
                    s.append(reg_abi_name(dst));
                    s.append(",");
                    s.append(reg_abi_name(src1));
                    s.append(",");
                    s.append(reg_abi_name(src2));
                }
                proof {
                    assert(s@ =~= spec_disasm(*self, address));
                }
            },
            Inst::Unknown => {
                s.append("???");
            },
            Inst::LoadFP { dst, width, base, offset } => {
                s.append(if width == 4 { "flw" } else { "fld" });
                s.append("\t");
                let f = freg_abi_name(dst);
                s.append(f.as_str());
                s.append(",");
                let d = fmt_dec_i64(offset as i64);
                s.append(d.as_str());
                s.append("(");
                s.append(reg_abi_name(base));
                s.append(")");
            },
            Inst::StoreFP { src, width, base, offset } => {
                s.append(if width == 4 { "fsw" } else { "fsd" });
                s.append("\t");
                let f = freg_abi_name(src);
                s.append(f.as_str());
                s.append(",");
                let d = fmt_dec_i64(offset as i64);
                s.append(d.as_str());
                s.append("(");
                s.append(reg_abi_name(base));
                s.append(")");
            },
            _ => {
            },
        }
        proof {
            assert(s@ =~= spec_disasm(*self, address));
        }
        s
    }
}

} // verus!
