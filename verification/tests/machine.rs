use simrv64i::cpu::{CPU, SyscallAction, TOP_OF_STACK};
use simrv64i::insts::Error;
use simrv64i::tbs::JIT;
use simrv64i::syms::{Symbol, SymbolTreeNode, sort_symbols};

/// A three-instruction block: addi a0,a0,1; add a1,a0,a0; jal zero,+4.
fn load_counting_block(cpu: &mut CPU, at: u64) {
    cpu.memory.store_u32(at as usize, 0x00150513).unwrap();
    cpu.memory.store_u32(at as usize + 4, 0x00A505B3).unwrap();
    cpu.memory.store_u32(at as usize + 8, 0x0040006F).unwrap();
}

#[test]
fn step_builds_then_replays_a_block() {
    let mut cpu = CPU::new(false);
    let mut jit = JIT::new();
    load_counting_block(&mut cpu, 0x1000);
    cpu.set_entry(0x1000);

    // miss: decode while executing, install the block
    assert!(matches!(cpu.step(&mut jit, None), Ok(None)));
    assert_eq!(cpu.pc, 0x100C);
    assert_eq!(cpu.get_reg(10), 1);
    assert_eq!(cpu.get_reg(11), 2);
    assert_eq!(jit.tbs.len(), 1);
    assert_eq!(jit.tbs[0].start, 0x1000);
    assert_eq!(jit.tbs[0].instrs.len(), 3);
    assert_eq!(jit.tbs[0].exec_count, 1);

    // hit: replay the cached block
    cpu.set_entry(0x1000);
    assert!(matches!(cpu.step(&mut jit, None), Ok(None)));
    assert_eq!(cpu.pc, 0x100C);
    assert_eq!(cpu.get_reg(10), 2);
    assert_eq!(cpu.get_reg(11), 4);
    assert_eq!(jit.tbs.len(), 1);
    assert_eq!(jit.tbs[0].exec_count, 2);
}

#[test]
fn step_pc_is_always_even() {
    let mut cpu = CPU::new(false);
    let mut jit = JIT::new();
    load_counting_block(&mut cpu, 0x1000);
    cpu.set_entry(0x1000);
    for _ in 0..5 {
        cpu.set_entry(0x1000);
        assert!(matches!(cpu.step(&mut jit, None), Ok(None)));
        assert_eq!(cpu.pc % 2, 0);
    }
}

#[test]
fn jit_path_matches_the_interpreter() {
    // run the same block hot enough to be lowered, and the same number
    // of times through the interpreter alone; the states must agree
    let rounds: usize = 1200;

    let mut cpu_jit = CPU::new(true);
    let mut jit = JIT::new();
    load_counting_block(&mut cpu_jit, 0x1000);

    let mut cpu_int = CPU::new(false);
    let mut cache_int = JIT::new();
    load_counting_block(&mut cpu_int, 0x1000);

    for _ in 0..rounds {
        cpu_jit.set_entry(0x1000);
        assert!(matches!(cpu_jit.step(&mut jit, None), Ok(None)));
        cpu_int.set_entry(0x1000);
        assert!(matches!(cpu_int.step(&mut cache_int, None), Ok(None)));
        assert_eq!(cpu_jit.pc, cpu_int.pc);
        assert_eq!(cpu_jit.get_reg(10), cpu_int.get_reg(10));
        assert_eq!(cpu_jit.get_reg(11), cpu_int.get_reg(11));
    }
    // the hot block was lowered on the accelerated run
    assert!(jit.tbs[0].jit_code.is_some());
    assert!(cache_int.tbs[0].jit_code.is_none());
    assert_eq!(cpu_jit.get_reg(10), rounds as u64);
    assert_eq!(cpu_jit.get_reg(11), 2 * rounds as u64);
}

#[test]
fn unsupported_block_is_marked_after_a_failed_lowering() {
    // a hot block ending in an ecall cannot be lowered: the batch pass
    // marks it failed, leaves it uncompiled, and it keeps interpreting
    let mut cpu = CPU::new(true);
    let mut jit = JIT::new();
    // addi a7, zero, 214; ecall   (brk: ignored, returns 0)
    cpu.memory.store_u32(0x5000, 0x0D600893).unwrap();
    cpu.memory.store_u32(0x5004, 0x00000073).unwrap();
    for _ in 0..1200 {
        cpu.set_entry(0x5000);
        assert!(matches!(cpu.step(&mut jit, None), Ok(None)));
    }
    assert!(jit.tbs[0].jit_failed);
    assert!(jit.tbs[0].jit_code.is_none());
    assert_eq!(jit.tbs[0].exec_count, 1200);
}

#[test]
fn step_reports_guest_exit() {
    let mut cpu = CPU::new(false);
    let mut jit = JIT::new();
    // addi a7, zero, 93; ecall
    cpu.memory.store_u32(0x2000, 0x05D00893).unwrap();
    cpu.memory.store_u32(0x2004, 0x00000073).unwrap();
    cpu.set_entry(0x2000);
    cpu.set_reg(10, 42);
    assert_eq!(cpu.step(&mut jit, None), Err(Error::Exit(42)));
    assert_eq!(cpu.pc, 0x2004);
}

#[test]
fn step_hands_out_a_write_action() {
    let mut cpu = CPU::new(false);
    let mut jit = JIT::new();
    // addi a7, zero, 64; ecall  (write)
    cpu.memory.store_u32(0x3000, 0x04000893).unwrap();
    cpu.memory.store_u32(0x3004, 0x00000073).unwrap();
    cpu.memory.copy_bulk(0x500, b"hi").unwrap();
    cpu.set_reg(10, 1);
    cpu.set_reg(11, 0x500);
    cpu.set_reg(12, 2);
    cpu.set_entry(0x3000);
    match cpu.step(&mut jit, None) {
        Ok(Some(SyscallAction::Write { fd, bytes })) => {
            assert_eq!(fd, 1);
            assert_eq!(bytes, b"hi".to_vec());
        }
        other => panic!("unexpected step outcome: {:?}", other),
    }
    // the ecall fell through; the caller would now write a0 back
    assert_eq!(cpu.pc, 0x3008);
    cpu.set_reg(10, 2);
    assert_eq!(cpu.get_reg(10), 2);
    // the block ending in the ecall was installed
    assert_eq!(jit.tbs.len(), 1);
    assert_eq!(jit.tbs[0].instrs.len(), 2);
}

#[test]
fn step_rejects_an_illegal_word() {
    let mut cpu = CPU::new(false);
    let mut jit = JIT::new();
    // the all-zero word is the canonical illegal instruction
    cpu.set_entry(0x4000);
    assert_eq!(cpu.step(&mut jit, None), Err(Error::Illegal));
    assert_eq!(cpu.pc, 0x4000);
    assert!(jit.tbs.is_empty());
}

#[test]
fn hottest_tbs_ranks_by_count() {
    let mut cpu = CPU::new(false);
    let mut jit = JIT::new();
    load_counting_block(&mut cpu, 0x1000);
    load_counting_block(&mut cpu, 0x2000);
    for _ in 0..9 {
        cpu.set_entry(0x1000);
        cpu.step(&mut jit, None).unwrap();
    }
    for _ in 0..17 {
        cpu.set_entry(0x2000);
        cpu.step(&mut jit, None).unwrap();
    }
    let top = jit.hottest_tbs(5);
    assert_eq!(top, vec![(17, 0x2000), (9, 0x1000)]);
    let none = jit.hottest_tbs(100);
    assert!(none.is_empty());
}

#[test]
fn stack_layout_holds_argc_argv_and_strings() {
    let mut cpu = CPU::new(false);
    let args: Vec<Vec<u8>> = vec![b"hello-world.elf".to_vec(), b"foo".to_vec()];
    cpu.setup_stack(Some(&args));
    let tos = TOP_OF_STACK;
    assert_eq!(cpu.get_reg(2), tos as u64);
    assert_eq!(cpu.memory.load_u64(tos).unwrap(), 2);
    let p0 = cpu.memory.load_u64(tos + 8).unwrap() as usize;
    let p1 = cpu.memory.load_u64(tos + 16).unwrap() as usize;
    assert_eq!(cpu.memory.load_u64(tos + 24).unwrap(), 0);
    // strings start after the pointer table plus the total string size
    assert_eq!(p0, tos + 4 * 8 + 20);
    assert_eq!(p1, p0 + 16);
    for (j, b) in b"hello-world.elf\0".iter().enumerate() {
        assert_eq!(cpu.memory.load_u8(p0 + j).unwrap(), *b);
    }
    for (j, b) in b"foo\0".iter().enumerate() {
        assert_eq!(cpu.memory.load_u8(p1 + j).unwrap(), *b);
    }
}

#[test]
fn stack_without_argv_only_sets_sp() {
    let mut cpu = CPU::new(false);
    cpu.setup_stack(None);
    assert_eq!(cpu.get_reg(2), TOP_OF_STACK as u64);
    assert_eq!(cpu.memory.load_u64(TOP_OF_STACK).unwrap(), 0);
}

fn sym(name: &str, addr: i64, size: i64) -> Symbol {
    Symbol { name: name.to_string(), addr, size }
}

#[test]
fn symbol_sort_and_tree_lookup() {
    let syms = vec![
        sym("main", 0x2000, 0x80),
        sym("_start", 0x1000, 0x20),
        sym("helper", 0x3000, 0x10),
    ];
    let sorted = sort_symbols(syms);
    assert_eq!(sorted[0].addr, 0x1000);
    assert_eq!(sorted[2].addr, 0x3000);
    let tree = SymbolTreeNode::build(&sorted).unwrap();
    assert_eq!(tree.count(), 3);
    assert_eq!(tree.lookup(0x2010), Some(("main", 0x2000)));
    assert_eq!(tree.lookup(0x1000), Some(("_start", 0x1000)));
    assert_eq!(tree.lookup(0x300F), Some(("helper", 0x3000)));
    assert_eq!(tree.lookup(0x4000), None);
    assert_eq!(tree.lookup(0x1FFF), None);
}

#[test]
fn zero_sized_symbols_cover_no_address() {
    let sorted = sort_symbols(vec![sym("marker", 0x100, 0), sym("fn_a", 0x100, 8)]);
    let tree = SymbolTreeNode::build(&sorted).unwrap();
    // the zero-sized marker covers nothing; the sized symbol is found
    assert_eq!(tree.lookup(0x104), Some(("fn_a", 0x100)));
    assert_eq!(tree.lookup(0x108), None);
}

#[test]
fn symbol_tree_of_nothing() {
    assert!(SymbolTreeNode::build(&[]).is_none());
}

#[test]
fn step_labels_blocks_from_the_symbol_index() {
    let mut cpu = CPU::new(false);
    let mut jit = JIT::new();
    load_counting_block(&mut cpu, 0x1000);
    let sorted = sort_symbols(vec![sym("loop_head", 0x1000, 12)]);
    let tree = SymbolTreeNode::build(&sorted).unwrap();
    cpu.set_entry(0x1000);
    cpu.step(&mut jit, Some(&tree)).unwrap();
    assert_eq!(jit.tbs[0].label.as_deref(), Some("loop_head"));
}
