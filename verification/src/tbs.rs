//! Translation blocks and the acceleration pass.
//!
//! A translation block (TB) is the maximal straight-line sequence of
//! decoded instructions starting at an entry PC and ending at the first
//! control transfer. Hot blocks are lowered in batch to a compact form
//! whose PC literals are resolved at lowering time; executing the
//! lowered form is proved to leave the CPU state exactly as
//! interpreting the block's instructions in order would.

use vstd::prelude::*;
use std::collections::HashMap;
use crate::insts::{
    Inst, ALU, Predicate, Error, Reg, spec_exec, spec_branch_target,
    alu_reg_value, alu_imm_value, branch_taken, lemma_clear_low_bit_even, lemma_cast_parity,
    spec_parse_instruction, lemma_parse_instruction_wf,
};
use crate::cpu::{
    CPU, CpuView, ExecOut, SyscallAction, SyscallSpec, MEM_SIZE, le32_of,
    lemma_wrapping_add_even, lemma_small_u64_fits_usize,
};

verus! {

broadcast use vstd::std_specs::hash::group_hash_axioms;

/// Execution count past which a hit requests the lowering pass.
pub const TB_KICK_IN_JIT: i64 = 1_000;

/// Execution count past which the batch pass lowers a block.
pub const TB_LOWER_MIN: i64 = 100;

/// One lowered instruction. PC-relative values (link values, branch
/// destinations, fall-through addresses, and the trap PC of a memory
/// access) are resolved to literals at lowering time.
#[derive(Debug, Clone, Copy, PartialEq, Eq, Structural)]
pub enum LoweredOp {
    Alu { op: ALU, dst: Reg, src1: Reg, src2: Reg },
    AluImm { op: ALU, dst: Reg, src1: Reg, imm: u32 },
    Load { dst: Reg, width: u8, base: Reg, offset: i32, signext: bool, at: i64 },
    Store { src: Reg, width: u8, base: Reg, offset: i32, at: i64 },
    Jump { dst: Reg, link: u64, target: i64 },
    JumpReg { dst: Reg, link: u64, base: Reg, offset: i32 },
    Br { pred: Predicate, src1: Reg, src2: Reg, taken: i64, fall: i64 },
}

/// A cached translation block.
pub struct TranslationBlock {
    /// Entry PC; equals the cache key.
    pub start: i64,
    /// How many times the block has been entered.
    pub exec_count: i64,
    pub valid: bool,
    /// Symbol name of the entry, when one starts exactly here.
    pub label: Option<String>,
    /// The decoded body, each instruction with its encoded size.
    pub instrs: Vec<(Inst, u8)>,
    /// Whether a lowering attempt failed; such a block stays
    /// interpreted.
    pub jit_failed: bool,
    /// The lowered body, once the block has become hot.
    pub jit_code: Option<Vec<LoweredOp>>,
}

/// Well-formedness of a block body: decoded instructions with their
/// true sizes, ending in exactly one terminator.
pub open spec fn tb_instrs_wf(instrs: Seq<(Inst, u8)>) -> bool {
    &&& instrs.len() > 0
    &&& forall|k: int| 0 <= k < instrs.len()
        ==> (#[trigger] instrs[k].0).wf() && (instrs[k].1 == 2 || instrs[k].1 == 4)
    &&& instrs.last().0.spec_is_terminator()
    &&& forall|k: int| 0 <= k < instrs.len() - 1
        ==> !(#[trigger] instrs[k].0).spec_is_terminator()
}

/// The outcome of running a block body from a state: all instructions
/// executed (`Done`), stopped at an `ecall` that needs a host action
/// (`Sys`), or failed at some instruction, in the state just before it
/// (`Fail`).
pub enum TbRun {
    Done(CpuView),
    Sys(CpuView, SyscallSpec),
    Fail(CpuView, Error),
}

/// Interpreting a block body in order from `pre`.
pub open spec fn spec_tb_run(instrs: Seq<(Inst, u8)>, pre: CpuView) -> TbRun
    decreases instrs.len(),
{
    if instrs.len() == 0 {
        TbRun::Done(pre)
    } else {
        match spec_exec(instrs[0].0, instrs[0].1 as i64, pre) {
            ExecOut::Next(post) => spec_tb_run(instrs.drop_first(), post),
            ExecOut::Sys(post, act) => TbRun::Sys(post, act),
            ExecOut::Trap(e) => TbRun::Fail(pre, e),
        }
    }
}

/// The lowering of one instruction at PC `pc`, or `None` when the
/// instruction is outside the lowered subset (system instructions,
/// signed branch predicates, sub-word sign-extending loads, and the
/// PC-relative and floating-point forms stay with the interpreter).
pub open spec fn spec_lower_one(inst: Inst, size: i64, pc: i64) -> Option<LoweredOp> {
    match inst {
        Inst::ALUImm { op, dst, src1, imm } => {
            if op == ALU::Add || op == ALU::SLL || op == ALU::SRL
                || op == ALU::AddW || op == ALU::SubW || op == ALU::SRAW {
                Some(LoweredOp::AluImm { op, dst, src1, imm })
            } else {
                None
            }
        },
        Inst::ALUReg { op, dst, src1, src2 } => {
            if op == ALU::Add || op == ALU::And || op == ALU::Or || op == ALU::XOr
                || op == ALU::AddW || op == ALU::SubW {
                Some(LoweredOp::Alu { op, dst, src1, src2 })
            } else {
                None
            }
        },
        Inst::Load { dst, width, base, offset, signext } => {
            if (width == 4 && signext) || width == 8 {
                Some(LoweredOp::Load { dst, width, base, offset, signext, at: pc })
            } else {
                None
            }
        },
        Inst::Store { src, width, base, offset } =>
            Some(LoweredOp::Store { src, width, base, offset, at: pc }),
        Inst::JumpAndLink { dst, offset } => Some(LoweredOp::Jump {
            dst,
            link: vstd::wrapping::i64_specs::wrapping_add(pc, size) as u64,
            target: spec_branch_target(pc, offset),
        }),
        Inst::JumpAndLinkReg { dst, base, offset } => Some(LoweredOp::JumpReg {
            dst,
            link: vstd::wrapping::i64_specs::wrapping_add(pc, size) as u64,
            base,
            offset,
        }),
        Inst::Branch { pred, src1, src2, offset } => {
            if pred == Predicate::EQ || pred == Predicate::NE
                || pred == Predicate::LTU || pred == Predicate::GEU {
                Some(LoweredOp::Br {
                    pred,
                    src1,
                    src2,
                    taken: spec_branch_target(pc, offset),
                    fall: vstd::wrapping::i64_specs::wrapping_add(pc, size),
                })
            } else {
                None
            }
        },
        _ => None,
    }
}

/// The lowering of a whole block body starting at PC `pc`: one lowered
/// op per instruction, or `None` when any instruction is unsupported.
pub open spec fn spec_lower(instrs: Seq<(Inst, u8)>, pc: i64) -> Option<Seq<LoweredOp>>
    decreases instrs.len(),
{
    if instrs.len() == 0 {
        Some(seq![])
    } else {
        match spec_lower_one(instrs[0].0, instrs[0].1 as i64, pc) {
            None => None,
            Some(op) => {
                match spec_lower(
                    instrs.drop_first(),
                    vstd::wrapping::i64_specs::wrapping_add(pc, instrs[0].1 as i64),
                ) {
                    None => None,
                    Some(rest) => Some(seq![op] + rest),
                }
            },
        }
    }
}

/// A lowered body has exactly one op per instruction.
pub proof fn lemma_lower_len(instrs: Seq<(Inst, u8)>, pc: i64)
    ensures
        spec_lower(instrs, pc) matches Some(ops) ==> ops.len() == instrs.len(),
    decreases instrs.len(),
{
    if instrs.len() > 0 {
        lemma_lower_len(
            instrs.drop_first(),
            vstd::wrapping::i64_specs::wrapping_add(pc, instrs[0].1 as i64),
        );
    }
}

fn lower_one(inst: Inst, size: i64, pc: i64) -> (r: Option<LoweredOp>)
    ensures
        r == spec_lower_one(inst, size, pc),
{
    match inst {
        Inst::ALUImm { op, dst, src1, imm } => {
            if op == ALU::Add || op == ALU::SLL || op == ALU::SRL
                || op == ALU::AddW || op == ALU::SubW || op == ALU::SRAW {
                Some(LoweredOp::AluImm { op, dst, src1, imm })
            } else {
                None
            }
        },
        Inst::ALUReg { op, dst, src1, src2 } => {
            if op == ALU::Add || op == ALU::And || op == ALU::Or || op == ALU::XOr
                || op == ALU::AddW || op == ALU::SubW {
                Some(LoweredOp::Alu { op, dst, src1, src2 })
            } else {
                None
            }
        },
        Inst::Load { dst, width, base, offset, signext } => {
            if (width == 4 && signext) || width == 8 {
                Some(LoweredOp::Load { dst, width, base, offset, signext, at: pc })
            } else {
                None
            }
        },
        Inst::Store { src, width, base, offset } =>
            Some(LoweredOp::Store { src, width, base, offset, at: pc }),
        Inst::JumpAndLink { dst, offset } => Some(LoweredOp::Jump {
            dst,
            link: pc.wrapping_add(size) as u64,
            target: pc.wrapping_add(offset as i64),
        }),
        Inst::JumpAndLinkReg { dst, base, offset } => Some(LoweredOp::JumpReg {
            dst,
            link: pc.wrapping_add(size) as u64,
            base,
            offset,
        }),
        Inst::Branch { pred, src1, src2, offset } => {
            if pred == Predicate::EQ || pred == Predicate::NE
                || pred == Predicate::LTU || pred == Predicate::GEU {
                Some(LoweredOp::Br {
                    pred,
                    src1,
                    src2,
                    taken: pc.wrapping_add(offset as i64),
                    fall: pc.wrapping_add(size),
                })
            } else {
                None
            }
        },
        _ => None,
    }
}

/// Lower a block body starting at PC `start`.
pub fn lower(instrs: &Vec<(Inst, u8)>, start: i64) -> (r: Option<Vec<LoweredOp>>)
    ensures
        match r {
            Some(ops) => spec_lower(instrs@, start) == Some(ops@),
            None => spec_lower(instrs@, start) is None,
        },
{
    let mut out: Vec<LoweredOp> = Vec::new();
    let mut pc: i64 = start;
    let mut i: usize = 0;
    proof {
        assert(instrs@.skip(0) =~= instrs@);
        match spec_lower(instrs@, start) {
            Some(rest) => {
                assert(Seq::<LoweredOp>::empty() + rest =~= rest);
            },
            None => {},
        }
    }
    while i < instrs.len()
        invariant
            0 <= i <= instrs@.len(),
            out@.len() == i,
            match spec_lower(instrs@.skip(i as int), pc) {
                Some(rest) => spec_lower(instrs@, start) == Some(out@ + rest),
                None => spec_lower(instrs@, start) is None,
            },
        decreases instrs@.len() - i,
    {
        let (inst, size) = instrs[i];
        proof {
            assert(instrs@.skip(i as int)[0] == instrs@[i as int]);
        }
        match lower_one(inst, size as i64, pc) {
            None => {
                return None;
            },
            Some(op) => {
                let ghost pre = out@;
                out.push(op);
                let ghost old_pc = pc;
                pc = pc.wrapping_add(size as i64);
                proof {
                    assert(instrs@.skip(i as int).drop_first() =~= instrs@.skip(i + 1));
                    match spec_lower(instrs@.skip(i + 1), pc) {
                        Some(rest2) => {
                            assert(spec_lower(instrs@.skip(i as int), old_pc)
                                == Some(seq![op] + rest2));
                            assert(pre + (seq![op] + rest2) =~= out@ + rest2);
                        },
                        None => {},
                    }
                }
                i = i + 1;
            },
        }
    }
    proof {
        assert(instrs@.skip(i as int) =~= Seq::<(Inst, u8)>::empty());
        assert(spec_lower(instrs@.skip(i as int), pc) == Some(Seq::<LoweredOp>::empty()));
        assert(out@ + Seq::<LoweredOp>::empty() =~= out@);
    }
    Some(out)
}

/// Execute a lowered block body against the CPU. The ghost argument
/// names the decoded instructions the ops were lowered from.
///
/// The postcondition is the acceleration pass's correctness statement:
/// running the lowered form from the block's entry leaves the register
/// file, the memory and the PC exactly as interpreting the decoded
/// instructions in order would, fault for fault.
#[verifier::rlimit(60)]
pub fn run_lowered(
    cpu: &mut CPU,
    ops: &Vec<LoweredOp>,
    Ghost(instrs): Ghost<Seq<(Inst, u8)>>,
) -> (r: Result<(), Error>)
    requires
        old(cpu).wf(),
        tb_instrs_wf(instrs),
        spec_lower(instrs, old(cpu).pc) == Some(ops@),
    ensures
        final(cpu).wf(),
        final(cpu).debug_syscalls == old(cpu).debug_syscalls,
        final(cpu).jit_enabled == old(cpu).jit_enabled,
        match spec_tb_run(instrs, old(cpu)@) {
            TbRun::Done(post) => r matches Ok(v) && final(cpu)@ == post,
            TbRun::Sys(_, _) => false,
            TbRun::Fail(st, e) => r matches Err(e2) && e2 == e && final(cpu)@ == st,
        },
{
    let ghost start = old(cpu).pc;
    let ghost mut ipc: i64 = start;
    let mut i: usize = 0;
    proof {
        lemma_lower_len(instrs, start);
        assert(instrs.skip(0) =~= instrs);
        assert(ops@.skip(0) =~= ops@);
    }
    while i < ops.len()
        invariant
            0 <= i < instrs.len(),
            ops@.len() == instrs.len(),
            cpu.wf(),
            cpu@.pc == start,
            ipc % 2 == 0,
            cpu.debug_syscalls == old(cpu).debug_syscalls,
            cpu.jit_enabled == old(cpu).jit_enabled,
            tb_instrs_wf(instrs),
            spec_lower(instrs.skip(i as int), ipc) == Some(ops@.skip(i as int)),
            spec_tb_run(instrs, old(cpu)@)
                == spec_tb_run(instrs.skip(i as int), cpu@.with_pc(ipc)),
        decreases ops@.len() - i,
    {
        let op = ops[i];
        let ghost inst = instrs[i as int].0;
        let ghost sz = instrs[i as int].1 as i64;
        let ghost st_pre = cpu@.with_pc(ipc);
        proof {
            assert(instrs.skip(i as int)[0] == instrs[i as int]);
            assert(ops@.skip(i as int)[0] == ops@[i as int]);
            assert(spec_lower_one(inst, sz, ipc) == Some(op));
            assert(instrs.skip(i as int).drop_first() =~= instrs.skip(i + 1));
            assert(ops@.skip(i as int).drop_first() =~= ops@.skip(i + 1));
            assert(spec_lower(
                instrs.skip(i + 1),
                vstd::wrapping::i64_specs::wrapping_add(ipc, sz),
            ) == Some(ops@.skip(i + 1)));
        }
        match op {
            LoweredOp::AluImm { op: aop, dst, src1, imm } => {
                proof {
                    assert(inst == (Inst::ALUImm { op: aop, dst, src1, imm }));
                }
                let a: u64 = cpu.get_reg(src1);
                cpu.set_reg(dst, alu_imm_value(aop, a, imm));
                proof {
                    ipc = vstd::wrapping::i64_specs::wrapping_add(ipc, sz);
                    lemma_wrapping_add_even(st_pre.pc, sz);
                    assert(spec_exec(inst, sz, st_pre)
                        == ExecOut::Next(cpu@.with_pc(ipc)));
                }
                proof {
                    assert(!inst.spec_is_terminator());
                    assert(i + 1 < instrs.len()) by {
                        if i + 1 == instrs.len() {
                            assert(instrs.last() == instrs[i as int]);
                        }
                    }
                }
                i = i + 1;
            },
            LoweredOp::Alu { op: aop, dst, src1, src2 } => {
                proof {
                    assert(inst == (Inst::ALUReg { op: aop, dst, src1, src2 }));
                }
                let a: u64 = cpu.get_reg(src1);
                let b: u64 = cpu.get_reg(src2);
                cpu.set_reg(dst, alu_reg_value(aop, a, b));
                proof {
                    ipc = vstd::wrapping::i64_specs::wrapping_add(ipc, sz);
                    lemma_wrapping_add_even(st_pre.pc, sz);
                    assert(spec_exec(inst, sz, st_pre)
                        == ExecOut::Next(cpu@.with_pc(ipc)));
                }
                proof {
                    assert(!inst.spec_is_terminator());
                    assert(i + 1 < instrs.len()) by {
                        if i + 1 == instrs.len() {
                            assert(instrs.last() == instrs[i as int]);
                        }
                    }
                }
                i = i + 1;
            },
            LoweredOp::Load { dst, width, base, offset, signext, at } => {
                proof {
                    assert(inst == (Inst::Load { dst, width, base, offset, signext }));
                    assert(at == ipc);
                }
                let ea: u64 = cpu.get_reg(base).wrapping_add(offset as i64 as u64);
                if ea <= MEM_SIZE as u64 - width as u64 {
                    proof { lemma_small_u64_fits_usize(ea); }
                    let addr: usize = ea as usize;
                    let v: u64 = if width == 4 {
                        let w: u32 = cpu.memory.load_u32_raw(addr);
                        if signext { w as i32 as i64 as u64 } else { w as u64 }
                    } else {
                        cpu.memory.load_u64_raw(addr)
                    };
                    cpu.set_reg(dst, v);
                    proof {
                        ipc = vstd::wrapping::i64_specs::wrapping_add(ipc, sz);
                        lemma_wrapping_add_even(st_pre.pc, sz);
                        assert(spec_exec(inst, sz, st_pre)
                            == ExecOut::Next(cpu@.with_pc(ipc)));
                    }
                    proof {
                        assert(!inst.spec_is_terminator());
                        assert(i + 1 < instrs.len()) by {
                            if i + 1 == instrs.len() {
                                assert(instrs.last() == instrs[i as int]);
                            }
                        }
                    }
                    i = i + 1;
                } else {
                    cpu.pc = at;
                    proof {
                        assert(spec_exec(inst, sz, st_pre)
                            == ExecOut::Trap(Error::OutOfBounds));
                        assert(spec_tb_run(instrs, old(cpu)@)
                            == TbRun::Fail(st_pre, Error::OutOfBounds));
                        assert(cpu@ == st_pre);
                    }
                    return Err(Error::OutOfBounds);
                }
            },
            LoweredOp::Store { src, width, base, offset, at } => {
                proof {
                    assert(inst == (Inst::Store { src, width, base, offset }));
                    assert(at == ipc);
                }
                let ea: u64 = cpu.get_reg(base).wrapping_add(offset as i64 as u64);
                if ea <= MEM_SIZE as u64 - width as u64 {
                    proof { lemma_small_u64_fits_usize(ea); }
                    let addr: usize = ea as usize;
                    let val: u64 = cpu.get_reg(src);
                    if width == 1 {
                        cpu.memory.store_u8_raw(addr, val as u8);
                    } else if width == 2 {
                        cpu.memory.store_u16_raw(addr, val as u16);
                    } else if width == 4 {
                        cpu.memory.store_u32_raw(addr, val as u32);
                    } else {
                        cpu.memory.store_u64_raw(addr, val);
                    }
                    proof {
                        ipc = vstd::wrapping::i64_specs::wrapping_add(ipc, sz);
                        lemma_wrapping_add_even(st_pre.pc, sz);
                        assert(spec_exec(inst, sz, st_pre)
                            == ExecOut::Next(cpu@.with_pc(ipc)));
                    }
                    proof {
                        assert(!inst.spec_is_terminator());
                        assert(i + 1 < instrs.len()) by {
                            if i + 1 == instrs.len() {
                                assert(instrs.last() == instrs[i as int]);
                            }
                        }
                    }
                    i = i + 1;
                } else {
                    cpu.pc = at;
                    proof {
                        assert(spec_exec(inst, sz, st_pre)
                            == ExecOut::Trap(Error::OutOfBounds));
                        assert(spec_tb_run(instrs, old(cpu)@)
                            == TbRun::Fail(st_pre, Error::OutOfBounds));
                        assert(cpu@ == st_pre);
                    }
                    return Err(Error::OutOfBounds);
                }
            },
            LoweredOp::Jump { dst, link, target } => {
                proof {
                    assert(inst matches Inst::JumpAndLink { .. });
                    assert(i == instrs.len() - 1);
                    assert(instrs.skip(i + 1) =~= Seq::<(Inst, u8)>::empty());
                }
                cpu.set_reg(dst, link);
                cpu.pc = target;
                proof {
                    let offset = inst->JumpAndLink_offset;
                    lemma_wrapping_add_even(st_pre.pc, offset as i64);
                    assert(spec_exec(inst, sz, st_pre) == ExecOut::Next(cpu@));
                    assert(spec_tb_run(instrs.skip(i + 1), cpu@) == TbRun::Done(cpu@));
                    assert(spec_tb_run(instrs, old(cpu)@) == TbRun::Done(cpu@));
                }
                return Ok(());
            },
            LoweredOp::JumpReg { dst, link, base, offset } => {
                proof {
                    assert(inst == (Inst::JumpAndLinkReg { dst, base, offset }));
                    assert(i == instrs.len() - 1);
                    assert(instrs.skip(i + 1) =~= Seq::<(Inst, u8)>::empty());
                }
                let target: u64 = cpu.get_reg(base).wrapping_add(offset as i64 as u64)
                    & !1u64;
                cpu.set_reg(dst, link);
                cpu.pc = target as i64;
                proof {
                    lemma_clear_low_bit_even(
                        vstd::wrapping::u64_specs::wrapping_add(
                            st_pre.regs[base as int],
                            offset as i64 as u64,
                        ),
                    );
                    lemma_cast_parity(target);
                    assert(spec_exec(inst, sz, st_pre) == ExecOut::Next(cpu@));
                    assert(spec_tb_run(instrs.skip(i + 1), cpu@) == TbRun::Done(cpu@));
                    assert(spec_tb_run(instrs, old(cpu)@) == TbRun::Done(cpu@));
                }
                return Ok(());
            },
            LoweredOp::Br { pred, src1, src2, taken, fall } => {
                proof {
                    assert(inst matches Inst::Branch { .. });
                    assert(inst == (Inst::Branch {
                        pred,
                        src1,
                        src2,
                        offset: inst->Branch_offset,
                    }));
                    assert(i == instrs.len() - 1);
                    assert(instrs.skip(i + 1) =~= Seq::<(Inst, u8)>::empty());
                }
                let a: u64 = cpu.get_reg(src1);
                let b: u64 = cpu.get_reg(src2);
                if branch_taken(pred, a, b) {
                    cpu.pc = taken;
                } else {
                    cpu.pc = fall;
                }
                proof {
                    let offset = inst->Branch_offset;
                    lemma_wrapping_add_even(st_pre.pc, offset as i64);
                    lemma_wrapping_add_even(st_pre.pc, sz);
                    assert(spec_exec(inst, sz, st_pre) == ExecOut::Next(cpu@));
                    assert(spec_tb_run(instrs.skip(i + 1), cpu@) == TbRun::Done(cpu@));
                    assert(spec_tb_run(instrs, old(cpu)@) == TbRun::Done(cpu@));
                }
                return Ok(());
            },
        }
    }
    proof {
        // unreachable: the invariant keeps the index inside the block,
        // whose final terminator returns from inside the loop
        assert(false);
    }
    Err(Error::Unimplemented("lowered block without terminator"))
}

/// Interpret a block body in order against the CPU.
pub fn exec_tb(cpu: &mut CPU, instrs: &Vec<(Inst, u8)>) -> (r: Result<
    Option<SyscallAction>,
    Error,
>)
    requires
        old(cpu).wf(),
        tb_instrs_wf(instrs@),
    ensures
        final(cpu).wf(),
        final(cpu).debug_syscalls == old(cpu).debug_syscalls,
        final(cpu).jit_enabled == old(cpu).jit_enabled,
        match spec_tb_run(instrs@, old(cpu)@) {
            TbRun::Done(post) => r matches Ok(v) && v is None && final(cpu)@ == post,
            TbRun::Sys(post, act) => r matches Ok(v) && v matches Some(a) && a@ == act
                && final(cpu)@ == post,
            TbRun::Fail(st, e) => r matches Err(e2) && e2 == e && final(cpu)@ == st,
        },
{
    let mut i: usize = 0;
    proof {
        assert(instrs@.skip(0) =~= instrs@);
    }
    while i < instrs.len()
        invariant
            0 <= i <= instrs@.len(),
            cpu.wf(),
            cpu.debug_syscalls == old(cpu).debug_syscalls,
            cpu.jit_enabled == old(cpu).jit_enabled,
            tb_instrs_wf(instrs@),
            spec_tb_run(instrs@, old(cpu)@) == spec_tb_run(instrs@.skip(i as int), cpu@),
        decreases instrs@.len() - i,
    {
        let (inst, size) = instrs[i];
        proof {
            assert(instrs@.skip(i as int)[0] == instrs@[i as int]);
            assert(instrs@.skip(i as int).drop_first() =~= instrs@.skip(i + 1));
        }
        match inst.exec(size as i64, cpu) {
            Ok(None) => {
                i = i + 1;
            },
            Ok(Some(a)) => {
                return Ok(Some(a));
            },
            Err(e) => {
                return Err(e);
            },
        }
    }
    Ok(None)
}

/// What building a block at `pre.pc` yields: the decoded instructions
/// accumulated so far, and how the build run ended.
pub struct BuildRes {
    pub instrs: Seq<(Inst, u8)>,
    pub run: TbRun,
}

/// Building a block while executing: decode the word at the PC, execute
/// it, append it, and stop at the first control transfer. A PC outside
/// the memory, a decode failure or an execution trap stops the build
/// with that failure and no block. The fuel bounds the recursion; it is
/// irrelevant once large enough, since the PC grows by at least two
/// bytes per step.
pub open spec fn spec_build(pre: CpuView, fuel: nat) -> BuildRes
    decreases fuel,
{
    if pre.pc < 0 || pre.pc + 4 > MEM_SIZE {
        BuildRes { instrs: seq![], run: TbRun::Fail(pre, Error::OutOfBounds) }
    } else {
        let word = le32_of(pre.mem, pre.pc as int);
        match spec_parse_instruction(word) {
            Result::Err(e) => BuildRes { instrs: seq![], run: TbRun::Fail(pre, e) },
            Result::Ok(p) => {
                let inst = p.0;
                let size = p.1;
                match spec_exec(inst, size as i64, pre) {
                    ExecOut::Trap(e) => BuildRes {
                        instrs: seq![],
                        run: TbRun::Fail(pre, e),
                    },
                    ExecOut::Sys(post, act) => BuildRes {
                        instrs: seq![(inst, size as u8)],
                        run: TbRun::Sys(post, act),
                    },
                    ExecOut::Next(post) => {
                        if inst.spec_is_terminator() {
                            BuildRes {
                                instrs: seq![(inst, size as u8)],
                                run: TbRun::Done(post),
                            }
                        } else if fuel == 0 {
                            BuildRes {
                                instrs: seq![],
                                run: TbRun::Fail(pre, Error::OutOfBounds),
                            }
                        } else {
                            let rest = spec_build(post, (fuel - 1) as nat);
                            BuildRes {
                                instrs: seq![(inst, size as u8)] + rest.instrs,
                                run: rest.run,
                            }
                        }
                    },
                }
            },
        }
    }
}

/// A fuel that is always enough to build from `pre`.
pub open spec fn build_fuel(pre: CpuView) -> nat {
    if pre.pc >= MEM_SIZE {
        0
    } else {
        (((MEM_SIZE - pre.pc + 1) / 2) as nat)
    }
}

/// What building a block at `pre.pc` yields.
pub open spec fn spec_build_from(pre: CpuView) -> BuildRes {
    spec_build(pre, build_fuel(pre))
}

pub proof fn lemma_build_fuel_enough(pre: CpuView)
    ensures
        2 * build_fuel(pre) + pre.pc >= MEM_SIZE,
{
    if pre.pc < MEM_SIZE {
        let x: int = MEM_SIZE - pre.pc + 1;
        vstd::arithmetic::div_mod::lemma_fundamental_div_mod(x, 2);
        vstd::arithmetic::div_mod::lemma_mod_bound(x, 2);
    }
}

/// With enough fuel, the build result does not depend on the fuel.
pub proof fn lemma_build_fuel_irrelevant(pre: CpuView, f1: nat, f2: nat)
    requires
        2 * f1 + pre.pc >= MEM_SIZE,
        2 * f2 + pre.pc >= MEM_SIZE,
    ensures
        spec_build(pre, f1) == spec_build(pre, f2),
    decreases f1 + f2,
{
    if !(pre.pc < 0 || pre.pc + 4 > MEM_SIZE) {
        let word = le32_of(pre.mem, pre.pc as int);
        lemma_parse_instruction_wf(word);
        match spec_parse_instruction(word) {
            Result::Err(_) => {},
            Result::Ok(p) => {
                match spec_exec(p.0, p.1 as i64, pre) {
                    ExecOut::Next(post) => {
                        if !p.0.spec_is_terminator() {
                            assert(post.pc == pre.pc + p.1);
                            lemma_build_fuel_irrelevant(post, (f1 - 1) as nat, (f2 - 1) as nat);
                        }
                    },
                    _ => {},
                }
            },
        }
    }
}

/// Whether a step result and final CPU state realise a block run:
/// `Done` as `Ok(None)`, a pending host action as `Ok(Some(..))` with
/// the action's view, and a failure as the matching error with the
/// state at the failing instruction.
pub open spec fn outcome_matches(
    r: Result<Option<SyscallAction>, Error>,
    post: CpuView,
    run: TbRun,
) -> bool {
    match run {
        TbRun::Done(p) => r matches Ok(v) && v is None && post == p,
        TbRun::Sys(p, act) => r matches Ok(v) && v matches Some(a) && a@ == act && post == p,
        TbRun::Fail(st, e) => r matches Err(e2) && e2 == e && post == st,
    }
}

/// What the batch lowering pass does to one block's lowering state: an
/// eligible block (hot past the lower threshold, not yet lowered, not
/// failed) gains exactly the lowering of its body at its entry PC, or
/// is marked failed when the body holds an unsupported instruction;
/// every other block's lowering state is untouched.
pub open spec fn kick_in_effect(t0: TranslationBlock, t1: TranslationBlock) -> bool {
    if !t0.jit_failed && t0.jit_code is None && t0.exec_count > TB_LOWER_MIN {
        match spec_lower(t0.instrs@, t0.start) {
            Some(ops) => (t1.jit_code matches Some(c) && c@ == ops) && !t1.jit_failed,
            None => t1.jit_failed && t1.jit_code is None,
        }
    } else {
        &&& t1.jit_code is Some <==> t0.jit_code is Some
        &&& (t1.jit_code matches Some(c1) ==> t0.jit_code matches Some(c0) && c1@ == c0@)
        &&& t1.jit_failed == t0.jit_failed
    }
}

/// Whether count/entry pairs are sorted by descending count.
pub open spec fn sorted_desc(s: Seq<(i64, i64)>) -> bool {
    forall|i: int, j: int| 0 <= i <= j < s.len()
        ==> (#[trigger] s[i]).0 >= (#[trigger] s[j]).0
}

/// An execution counter bump that stops at the maximum.
pub open spec fn saturating_inc(c: i64) -> i64 {
    if c < i64::MAX {
        (c + 1) as i64
    } else {
        c
    }
}

/// Well-formedness of a cached block: a well-formed body, and any
/// installed lowered code is exactly the lowering of that body at the
/// block's entry PC.
pub open spec fn tb_wf(tb: TranslationBlock) -> bool {
    &&& tb_instrs_wf(tb.instrs@)
    &&& (tb.jit_code matches Some(ops) ==> spec_lower(tb.instrs@, tb.start) == Some(ops@))
}

/// The translation-block cache: blocks in insertion order, and an index
/// from entry PC to position. Insertion happens only on first
/// encounter; there is no eviction, and an installed body is never
/// changed.
pub struct JIT {
    pub tbs: Vec<TranslationBlock>,
    pub index: HashMap<i64, usize>,
}

impl JIT {
    pub open spec fn wf(&self) -> bool {
        &&& forall|pc: i64| #[trigger] self.index@.contains_key(pc)
            ==> self.index@[pc] < self.tbs@.len()
                && self.tbs@[self.index@[pc] as int].start == pc
        &&& forall|i: int| 0 <= i < self.tbs@.len()
            ==> tb_wf(#[trigger] self.tbs@[i])
                && self.index@.contains_key(self.tbs@[i].start)
                && self.index@[self.tbs@[i].start] == i
    }

    /// Whether the cache holds a block for this entry PC.
    pub open spec fn spec_has(&self, pc: i64) -> bool {
        self.index@.contains_key(pc)
    }

    /// The cached block for this entry PC.
    pub open spec fn spec_tb(&self, pc: i64) -> TranslationBlock {
        self.tbs@[self.index@[pc] as int]
    }

    pub fn new() -> (r: JIT)
        ensures
            r.wf(),
            forall|pc: i64| !r.spec_has(pc),
            r.tbs@.len() == 0,
    {
        JIT { tbs: Vec::with_capacity(1024), index: HashMap::new() }
    }

    /// Install a freshly built block at its entry PC, which must not be
    /// cached yet. The new block starts with one execution and no
    /// lowered code. Every previously cached block is untouched.
    pub fn install_tb(
        &mut self,
        pc: i64,
        instrs: Vec<(Inst, u8)>,
        label: Option<String>,
        jit_failed: bool,
    )
        requires
            old(self).wf(),
            !old(self).spec_has(pc),
            tb_instrs_wf(instrs@),
        ensures
            final(self).wf(),
            final(self).spec_has(pc),
            final(self).spec_tb(pc).start == pc,
            final(self).spec_tb(pc).instrs@ == instrs@,
            final(self).spec_tb(pc).exec_count == 1,
            final(self).spec_tb(pc).jit_code is None,
            final(self).spec_tb(pc).jit_failed == jit_failed,
            final(self).tbs@.len() == old(self).tbs@.len() + 1,
            forall|p2: i64| #[trigger] old(self).spec_has(p2) ==> final(self).spec_has(p2)
                && final(self).spec_tb(p2) == old(self).spec_tb(p2),
    {
        let n: usize = self.tbs.len();
        let ghost instrs_view = instrs@;
        let tb = TranslationBlock {
            start: pc,
            exec_count: 1,
            valid: true,
            label,
            instrs,
            jit_failed,
            jit_code: None,
        };
        self.tbs.push(tb);
        self.index.insert(pc, n);
        proof {
            assert forall|p2: i64| #[trigger] self.index@.contains_key(p2)
                implies self.index@[p2] < self.tbs@.len()
                    && self.tbs@[self.index@[p2] as int].start == p2 by {
                if p2 != pc {
                    assert(old(self).index@.contains_key(p2));
                    assert(self.tbs@[self.index@[p2] as int]
                        == old(self).tbs@[old(self).index@[p2] as int]);
                }
            }
            assert forall|i: int| 0 <= i < self.tbs@.len()
                implies tb_wf(#[trigger] self.tbs@[i])
                    && self.index@.contains_key(self.tbs@[i].start)
                    && self.index@[self.tbs@[i].start] == i by {
                if i < n {
                    assert(self.tbs@[i] == old(self).tbs@[i]);
                    assert(tb_wf(old(self).tbs@[i]));
                    assert(old(self).tbs@[i].start != pc);
                }
            }
        }
    }

    /// The execution counts and entry PCs of the blocks run more often
    /// than `min_freq` times, as `(count, entry)` pairs sorted hottest
    /// first: exactly the over-threshold blocks of the cache, ranked.
    pub fn hottest_tbs(&self, min_freq: i64) -> (r: Vec<(i64, i64)>)
        ensures
            sorted_desc(r@),
            r@.to_multiset() == self.tbs@.map_values(
                |tb: TranslationBlock| (tb.exec_count, tb.start),
            ).filter(|p: (i64, i64)| p.0 > min_freq).to_multiset(),
    {
        broadcast use vstd::seq_lib::group_filter_ensures;
        broadcast use vstd::seq_lib::group_to_multiset_ensures;

        let ghost f = |tb: TranslationBlock| (tb.exec_count, tb.start);
        let ghost g = |p: (i64, i64)| p.0 > min_freq;
        let mut cand: Vec<(i64, i64)> = Vec::new();
        let mut i: usize = 0;
        proof {
            reveal(Seq::filter);
            assert(self.tbs@.subrange(0, 0).map_values(f)
                =~= Seq::<(i64, i64)>::empty());
            assert(self.tbs@.subrange(0, 0).map_values(f).filter(g)
                =~= Seq::<(i64, i64)>::empty());
        }
        while i < self.tbs.len()
            invariant
                0 <= i <= self.tbs@.len(),
                cand@ == self.tbs@.subrange(0, i as int).map_values(f).filter(g),
                f == (|tb: TranslationBlock| (tb.exec_count, tb.start)),
                g == (|p: (i64, i64)| p.0 > min_freq),
            decreases self.tbs@.len() - i,
        {
            broadcast use vstd::seq_lib::group_filter_ensures;

            let freq: i64 = self.tbs[i].exec_count;
            let start: i64 = self.tbs[i].start;
            let ghost pre = self.tbs@.subrange(0, i as int);
            proof {
                assert(self.tbs@.subrange(0, i + 1) =~= pre.push(self.tbs@[i as int]));
                assert(self.tbs@.subrange(0, i + 1).map_values(f)
                    =~= pre.map_values(f).push(f(self.tbs@[i as int])));
            }
            if freq > min_freq {
                cand.push((freq, start));
            }
            proof {
                reveal(Seq::filter);
                let m1 = self.tbs@.subrange(0, i + 1).map_values(f);
                assert(m1.drop_last() =~= pre.map_values(f));
                assert(m1.last() == f(self.tbs@[i as int]));
                assert(cand@ =~= m1.filter(g));
            }
            i = i + 1;
        }
        proof {
            assert(self.tbs@.subrange(0, self.tbs@.len() as int) =~= self.tbs@);
        }
        // rank hottest first (insertion sort)
        let mut out: Vec<(i64, i64)> = Vec::new();
        let mut rest = cand;
        let ghost whole = rest@;
        while rest.len() > 0
            invariant
                sorted_desc(out@),
                out@.to_multiset().add(rest@.to_multiset()) =~= whole.to_multiset(),
            decreases rest@.len(),
        {
            broadcast use vstd::seq_lib::group_to_multiset_ensures;

            let ghost rest_before = rest@;
            let x: (i64, i64) = rest.remove(0);
            proof {
                assert(rest_before.contains(x)) by {
                    assert(rest_before[0] == x);
                }
                assert(rest@.to_multiset().insert(x) =~= rest_before.to_multiset());
            }
            let mut k: usize = 0;
            while k < out.len() && out[k].0 >= x.0
                invariant
                    0 <= k <= out@.len(),
                    forall|i2: int| 0 <= i2 < k ==> (#[trigger] out@[i2]).0 >= x.0,
                    sorted_desc(out@),
                decreases out@.len() - k,
            {
                k = k + 1;
            }
            let ghost pre_insert = out@;
            let ghost kk = k as int;
            out.insert(k, x);
            proof {
                crate::syms::lemma_insert_to_multiset(pre_insert, kk, x);
                assert forall|a: int, b: int| 0 <= a <= b < out@.len()
                    implies (#[trigger] out@[a]).0 >= (#[trigger] out@[b]).0 by {
                    if a < kk {
                        assert(out@[a] == pre_insert[a]);
                    } else if a > kk {
                        assert(out@[a] == pre_insert[a - 1]);
                    }
                    if b < kk {
                        assert(out@[b] == pre_insert[b]);
                    } else if b > kk {
                        assert(out@[b] == pre_insert[b - 1]);
                    }
                    if a < kk && kk <= b {
                        assert(out@[a].0 >= x.0);
                    }
                    if a == kk && b > kk {
                        assert(x.0 >= pre_insert[b - 1].0);
                    }
                }
            }
        }
        out
    }

    /// The batch lowering pass: lower every block whose execution count
    /// has crossed the lower threshold and that has neither been
    /// lowered nor failed before. A failed attempt marks the block so
    /// it stays interpreted. Entry PCs, bodies, labels and counts are
    /// untouched, and `kick_in_effect` pins what happens to each
    /// block's lowering state.
    pub fn kick_in(&mut self)
        requires
            old(self).wf(),
        ensures
            final(self).wf(),
            final(self).tbs@.len() == old(self).tbs@.len(),
            final(self).index@ == old(self).index@,
            forall|i: int| 0 <= i < old(self).tbs@.len() ==> {
                &&& (#[trigger] final(self).tbs@[i]).start == old(self).tbs@[i].start
                &&& final(self).tbs@[i].instrs@ == old(self).tbs@[i].instrs@
                &&& final(self).tbs@[i].exec_count == old(self).tbs@[i].exec_count
                &&& final(self).tbs@[i].label == old(self).tbs@[i].label
                &&& final(self).tbs@[i].valid == old(self).tbs@[i].valid
                &&& kick_in_effect(old(self).tbs@[i], final(self).tbs@[i])
            },
    {
        let mut i: usize = 0;
        while i < self.tbs.len()
            invariant
                0 <= i <= self.tbs@.len(),
                self.wf(),
                self.tbs@.len() == old(self).tbs@.len(),
                self.index@ == old(self).index@,
                forall|j: int| 0 <= j < old(self).tbs@.len() ==> {
                    &&& (#[trigger] self.tbs@[j]).start == old(self).tbs@[j].start
                    &&& self.tbs@[j].instrs@ == old(self).tbs@[j].instrs@
                    &&& self.tbs@[j].exec_count == old(self).tbs@[j].exec_count
                    &&& self.tbs@[j].label == old(self).tbs@[j].label
                    &&& self.tbs@[j].valid == old(self).tbs@[j].valid
                },
                forall|j: int| 0 <= j < i
                    ==> kick_in_effect(old(self).tbs@[j], #[trigger] self.tbs@[j]),
                forall|j: int| i <= j < self.tbs@.len()
                    ==> (#[trigger] self.tbs@[j]).jit_code == old(self).tbs@[j].jit_code
                        && self.tbs@[j].jit_failed == old(self).tbs@[j].jit_failed,
            decreases self.tbs@.len() - i,
        {
            let eligible: bool = !self.tbs[i].jit_failed
                && self.tbs[i].jit_code.is_none()
                && self.tbs[i].exec_count > TB_LOWER_MIN;
            if eligible {
                let code: Option<Vec<LoweredOp>> = lower(&self.tbs[i].instrs, self.tbs[i].start);
                let tb = vstd::std_specs::vec::vec_index_mut(&mut self.tbs, i);
                match code {
                    Some(ops) => {
                        tb.jit_code = Some(ops);
                    },
                    None => {
                        tb.jit_failed = true;
                    },
                }
                proof {
                    assert(kick_in_effect(old(self).tbs@[i as int], self.tbs@[i as int]));
                }
            }
            i = i + 1;
        }
    }
}

} // verus!
