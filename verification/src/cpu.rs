//! Guest memory and CPU state.
//!
//! The memory is a flat, zero-initialised buffer of exactly `MEM_SIZE`
//! bytes; all multi-byte accesses are little-endian and composed from
//! byte accesses, so unaligned addresses behave like aligned ones.
//! The register file is 32 general-purpose 64-bit words with register 0
//! hardwired to zero, plus 32 NaN-boxed floating-point slots.

use vstd::prelude::*;
use std::collections::HashMap;
use crate::insts::{Reg, Error, REG_ZR, REG_SP, Inst, lemma_parse_instruction_wf, spec_parse_instruction};
use crate::tbs::{
    JIT, TbRun, spec_tb_run, spec_build_from, build_fuel,
    lemma_build_fuel_enough, lemma_build_fuel_irrelevant, outcome_matches, saturating_inc,
    exec_tb, run_lowered, tb_instrs_wf, tb_wf, TB_KICK_IN_JIT,
};
use crate::syms::SymbolTreeNode;

verus! {

broadcast use vstd::std_specs::hash::group_hash_axioms;

/// Size of the flat guest memory image in bytes (16 MiB).
pub const MEM_SIZE: usize = 0x100_0000;

/// Initial stack pointer: three quarters into the memory image
/// (the image size less a quarter of it).
pub const TOP_OF_STACK: usize = 0xC0_0000;

/// The byte offset of argument string `i` within the block of argument
/// strings: the lengths of the earlier strings, each with its NUL.
pub open spec fn argv_off(args: Seq<Vec<u8>>, i: int) -> int
    decreases i,
{
    if i <= 0 {
        0
    } else {
        argv_off(args, i - 1) + args[i - 1]@.len() + 1
    }
}

/// The total size of the argument strings with their NUL terminators.
pub open spec fn argv_total(args: Seq<Vec<u8>>) -> int {
    argv_off(args, args.len() as int)
}

proof fn lemma_argv_off_nonneg(args: Seq<Vec<u8>>, i: int)
    requires
        0 <= i,
    ensures
        argv_off(args, i) >= 0,
    decreases i,
{
    if i > 0 {
        lemma_argv_off_nonneg(args, i - 1);
    }
}

/// String offsets grow with the index.
pub proof fn lemma_argv_off_pair(args: Seq<Vec<u8>>, i: int, j: int)
    requires
        0 <= i <= j,
    ensures
        argv_off(args, i) <= argv_off(args, j),
    decreases j - i,
{
    if i < j {
        lemma_argv_off_pair(args, i, j - 1);
        lemma_argv_off_nonneg(args, i);
    }
}

/// String offsets are non-negative and bounded by the total size.
pub proof fn lemma_argv_off_mono(args: Seq<Vec<u8>>, i: int)
    requires
        0 <= i <= args.len(),
    ensures
        0 <= argv_off(args, i) <= argv_total(args),
    decreases args.len() - i,
{
    lemma_argv_off_nonneg(args, i);
    if i < args.len() {
        lemma_argv_off_mono(args, i + 1);
    }
}

/// The little-endian 16-bit value formed by the two bytes at `a`.
pub open spec fn le16_of(mem: Seq<u8>, a: int) -> u16 {
    (mem[a] as u16) | ((mem[a + 1] as u16) << 8)
}

/// The little-endian 32-bit value formed by the four bytes at `a`.
pub open spec fn le32_of(mem: Seq<u8>, a: int) -> u32 {
    (mem[a] as u32)
    | ((mem[a + 1] as u32) << 8)
    | ((mem[a + 2] as u32) << 16)
    | ((mem[a + 3] as u32) << 24)
}

/// The little-endian 64-bit value formed by the eight bytes at `a`.
pub open spec fn le64_of(mem: Seq<u8>, a: int) -> u64 {
    (mem[a] as u64)
    | ((mem[a + 1] as u64) << 8)
    | ((mem[a + 2] as u64) << 16)
    | ((mem[a + 3] as u64) << 24)
    | ((mem[a + 4] as u64) << 32)
    | ((mem[a + 5] as u64) << 40)
    | ((mem[a + 6] as u64) << 48)
    | ((mem[a + 7] as u64) << 56)
}

/// The memory after storing `v` at `a` as two little-endian bytes.
pub open spec fn store16_le(mem: Seq<u8>, a: int, v: u16) -> Seq<u8> {
    mem.update(a, (v & 0xff) as u8)
       .update(a + 1, ((v >> 8) & 0xff) as u8)
}

/// The memory after storing `v` at `a` as four little-endian bytes.
pub open spec fn store32_le(mem: Seq<u8>, a: int, v: u32) -> Seq<u8> {
    mem.update(a, (v & 0xff) as u8)
       .update(a + 1, ((v >> 8) & 0xff) as u8)
       .update(a + 2, ((v >> 16) & 0xff) as u8)
       .update(a + 3, ((v >> 24) & 0xff) as u8)
}

/// The memory after storing `v` at `a` as eight little-endian bytes.
pub open spec fn store64_le(mem: Seq<u8>, a: int, v: u64) -> Seq<u8> {
    mem.update(a, (v & 0xff) as u8)
       .update(a + 1, ((v >> 8) & 0xff) as u8)
       .update(a + 2, ((v >> 16) & 0xff) as u8)
       .update(a + 3, ((v >> 24) & 0xff) as u8)
       .update(a + 4, ((v >> 32) & 0xff) as u8)
       .update(a + 5, ((v >> 40) & 0xff) as u8)
       .update(a + 6, ((v >> 48) & 0xff) as u8)
       .update(a + 7, ((v >> 56) & 0xff) as u8)
}

/// Flat little-endian guest memory: a contiguous, zero-initialised byte
/// buffer of exactly `MEM_SIZE` bytes. Guest addresses index it directly;
/// there is no translation.
pub struct Memory {
    data: Vec<u8>,
}

impl View for Memory {
    type V = Seq<u8>;

    closed spec fn view(&self) -> Seq<u8> {
        self.data@
    }
}

impl Memory {
    /// The buffer always holds exactly `MEM_SIZE` bytes.
    pub open spec fn wf(&self) -> bool {
        self@.len() == MEM_SIZE
    }

    pub fn new() -> (m: Memory)
        ensures
            m.wf(),
            forall|i: int| 0 <= i < MEM_SIZE ==> m@[i] == 0u8,
    {
        let data: Vec<u8> = vec![0u8; MEM_SIZE];
        Memory { data }
    }

    /// Copy `src` into the buffer starting at `addr`; the caller has
    /// shown that it fits.
    pub(crate) fn copy_bulk_raw(&mut self, addr: u64, src: &[u8])
        requires
            old(self).wf(),
            addr + src@.len() <= MEM_SIZE,
        ensures
            final(self).wf(),
            forall|i: int| addr <= i < addr + src@.len()
                ==> final(self)@[i] == src@[i - addr],
            forall|i: int| 0 <= i < MEM_SIZE && !(addr <= i < addr + src@.len())
                ==> final(self)@[i] == old(self)@[i],
    {
        let base: usize = addr as usize;
        let mut j: usize = 0;
        while j < src.len()
            invariant
                self.wf(),
                base == addr,
                0 <= j <= src@.len(),
                base + src@.len() <= MEM_SIZE,
                forall|i: int| base <= i < base + j ==> self@[i] == src@[i - base],
                forall|i: int| 0 <= i < MEM_SIZE && !(base <= i < base + j)
                    ==> self@[i] == old(self)@[i],
            decreases src@.len() - j,
        {
            let b: u8 = src[j];
            self.data.set(base + j, b);
            j = j + 1;
        }
    }

    pub(crate) fn load_u8_raw(&self, addr: usize) -> (r: u8)
        requires
            self.wf(),
            addr + 1 <= MEM_SIZE,
        ensures
            r == self@[addr as int],
    {
        self.data[addr]
    }

    pub(crate) fn load_u16_raw(&self, addr: usize) -> (r: u16)
        requires
            self.wf(),
            addr + 2 <= MEM_SIZE,
        ensures
            r == le16_of(self@, addr as int),
    {
        (self.data[addr] as u16)
        | ((self.data[addr + 1] as u16) << 8)
    }

    pub(crate) fn load_u32_raw(&self, addr: usize) -> (r: u32)
        requires
            self.wf(),
            addr + 4 <= MEM_SIZE,
        ensures
            r == le32_of(self@, addr as int),
    {
        (self.data[addr] as u32)
        | ((self.data[addr + 1] as u32) << 8)
        | ((self.data[addr + 2] as u32) << 16)
        | ((self.data[addr + 3] as u32) << 24)
    }

    pub(crate) fn load_u64_raw(&self, addr: usize) -> (r: u64)
        requires
            self.wf(),
            addr + 8 <= MEM_SIZE,
        ensures
            r == le64_of(self@, addr as int),
    {
        (self.data[addr] as u64)
        | ((self.data[addr + 1] as u64) << 8)
        | ((self.data[addr + 2] as u64) << 16)
        | ((self.data[addr + 3] as u64) << 24)
        | ((self.data[addr + 4] as u64) << 32)
        | ((self.data[addr + 5] as u64) << 40)
        | ((self.data[addr + 6] as u64) << 48)
        | ((self.data[addr + 7] as u64) << 56)
    }


    /// Copy `src` into the buffer starting at `addr`. A copy that does
    /// not fit in the buffer fails with `OutOfBounds` and changes
    /// nothing.
    pub fn copy_bulk(&mut self, addr: u64, src: &[u8]) -> (r: Result<(), Error>)
        requires
            old(self).wf(),
        ensures
            final(self).wf(),
            match r {
                Ok(_) => addr + src@.len() <= MEM_SIZE
                    && (forall|i: int| addr <= i < addr + src@.len()
                        ==> final(self)@[i] == src@[i - addr])
                    && (forall|i: int| 0 <= i < MEM_SIZE && !(addr <= i < addr + src@.len())
                        ==> final(self)@[i] == old(self)@[i]),
                Err(e) => addr + src@.len() > MEM_SIZE && e == Error::OutOfBounds
                    && final(self)@ == old(self)@,
            },
    {
        if addr <= MEM_SIZE as u64 && src.len() as u64 <= MEM_SIZE as u64 - addr {
            self.copy_bulk_raw(addr, src);
            Ok(())
        } else {
            Err(Error::OutOfBounds)
        }
    }

    /// Load the byte at `addr`. An access outside the buffer fails with
    /// `OutOfBounds`.
    pub fn load_u8(&self, addr: usize) -> (r: Result<u8, Error>)
        requires
            self.wf(),
        ensures
            match r {
                Ok(v) => addr + 1 <= MEM_SIZE && v == self@[addr as int],
                Err(e) => addr + 1 > MEM_SIZE && e == Error::OutOfBounds,
            },
    {
        if addr < MEM_SIZE {
            Ok(self.load_u8_raw(addr))
        } else {
            Err(Error::OutOfBounds)
        }
    }

    /// Load the little-endian 16-bit value at `addr`. An access that
    /// straddles the end of the buffer fails with `OutOfBounds`.
    pub fn load_u16(&self, addr: usize) -> (r: Result<u16, Error>)
        requires
            self.wf(),
        ensures
            match r {
                Ok(v) => addr + 2 <= MEM_SIZE && v == le16_of(self@, addr as int),
                Err(e) => addr + 2 > MEM_SIZE && e == Error::OutOfBounds,
            },
    {
        if addr <= MEM_SIZE - 2 {
            Ok(self.load_u16_raw(addr))
        } else {
            Err(Error::OutOfBounds)
        }
    }

    /// Load the little-endian 32-bit value at `addr`. An access that
    /// straddles the end of the buffer fails with `OutOfBounds`.
    pub fn load_u32(&self, addr: usize) -> (r: Result<u32, Error>)
        requires
            self.wf(),
        ensures
            match r {
                Ok(v) => addr + 4 <= MEM_SIZE && v == le32_of(self@, addr as int),
                Err(e) => addr + 4 > MEM_SIZE && e == Error::OutOfBounds,
            },
    {
        if addr <= MEM_SIZE - 4 {
            Ok(self.load_u32_raw(addr))
        } else {
            Err(Error::OutOfBounds)
        }
    }

    /// Load the little-endian 64-bit value at `addr`. An access that
    /// straddles the end of the buffer fails with `OutOfBounds`.
    pub fn load_u64(&self, addr: usize) -> (r: Result<u64, Error>)
        requires
            self.wf(),
        ensures
            match r {
                Ok(v) => addr + 8 <= MEM_SIZE && v == le64_of(self@, addr as int),
                Err(e) => addr + 8 > MEM_SIZE && e == Error::OutOfBounds,
            },
    {
        if addr <= MEM_SIZE - 8 {
            Ok(self.load_u64_raw(addr))
        } else {
            Err(Error::OutOfBounds)
        }
    }

    /// Store one byte at `addr`. An access outside the buffer fails
    /// with `OutOfBounds` and changes nothing.
    pub fn store_u8(&mut self, addr: usize, val: u8) -> (r: Result<(), Error>)
        requires
            old(self).wf(),
        ensures
            final(self).wf(),
            match r {
                Ok(_) => addr + 1 <= MEM_SIZE
                    && final(self)@ == old(self)@.update(addr as int, val),
                Err(e) => addr + 1 > MEM_SIZE && e == Error::OutOfBounds
                    && final(self)@ == old(self)@,
            },
    {
        if addr < MEM_SIZE {
            self.store_u8_raw(addr, val);
            Ok(())
        } else {
            Err(Error::OutOfBounds)
        }
    }

    /// Store a 16-bit value at `addr` as two little-endian bytes. An
    /// access that straddles the end of the buffer fails with
    /// `OutOfBounds` and changes nothing.
    pub fn store_u16(&mut self, addr: usize, val: u16) -> (r: Result<(), Error>)
        requires
            old(self).wf(),
        ensures
            final(self).wf(),
            match r {
                Ok(_) => addr + 2 <= MEM_SIZE
                    && final(self)@ == store16_le(old(self)@, addr as int, val),
                Err(e) => addr + 2 > MEM_SIZE && e == Error::OutOfBounds
                    && final(self)@ == old(self)@,
            },
    {
        if addr <= MEM_SIZE - 2 {
            self.store_u16_raw(addr, val);
            Ok(())
        } else {
            Err(Error::OutOfBounds)
        }
    }

    /// Store a 32-bit value at `addr` as four little-endian bytes. An
    /// access that straddles the end of the buffer fails with
    /// `OutOfBounds` and changes nothing.
    pub fn store_u32(&mut self, addr: usize, val: u32) -> (r: Result<(), Error>)
        requires
            old(self).wf(),
        ensures
            final(self).wf(),
            match r {
                Ok(_) => addr + 4 <= MEM_SIZE
                    && final(self)@ == store32_le(old(self)@, addr as int, val),
                Err(e) => addr + 4 > MEM_SIZE && e == Error::OutOfBounds
                    && final(self)@ == old(self)@,
            },
    {
        if addr <= MEM_SIZE - 4 {
            self.store_u32_raw(addr, val);
            Ok(())
        } else {
            Err(Error::OutOfBounds)
        }
    }

    /// Store a 64-bit value at `addr` as eight little-endian bytes. An
    /// access that straddles the end of the buffer fails with
    /// `OutOfBounds` and changes nothing.
    pub fn store_u64(&mut self, addr: usize, val: u64) -> (r: Result<(), Error>)
        requires
            old(self).wf(),
        ensures
            final(self).wf(),
            match r {
                Ok(_) => addr + 8 <= MEM_SIZE
                    && final(self)@ == store64_le(old(self)@, addr as int, val),
                Err(e) => addr + 8 > MEM_SIZE && e == Error::OutOfBounds
                    && final(self)@ == old(self)@,
            },
    {
        if addr <= MEM_SIZE - 8 {
            self.store_u64_raw(addr, val);
            Ok(())
        } else {
            Err(Error::OutOfBounds)
        }
    }

    /// Copy the bytes in `[addr, addr + len)` out of guest memory.
    pub fn read_range(&self, addr: usize, len: usize) -> (r: Vec<u8>)
        requires
            self.wf(),
            addr + len <= MEM_SIZE,
        ensures
            r@ == self@.subrange(addr as int, addr + len),
    {
        let mut out: Vec<u8> = Vec::new();
        let mut j: usize = 0;
        while j < len
            invariant
                self.wf(),
                0 <= j <= len,
                addr + len <= MEM_SIZE,
                out@ == self@.subrange(addr as int, addr + j),
            decreases len - j,
        {
            let b: u8 = self.data[addr + j];
            out.push(b);
            proof {
                assert(out@ =~= self@.subrange(addr as int, addr + j + 1));
            }
            j = j + 1;
        }
        out
    }

    /// The index of the first NUL byte at or after `addr`, if any.
    pub fn find_nul(&self, addr: usize) -> (r: Option<usize>)
        requires
            self.wf(),
            addr <= MEM_SIZE,
        ensures
            match r {
                Some(i) => Some(i as int) == spec_nul_scan(self@, addr as int),
                None => spec_nul_scan(self@, addr as int) is None,
            },
    {
        let mut i: usize = addr;
        while i < MEM_SIZE
            invariant
                self.wf(),
                addr <= i <= MEM_SIZE,
                spec_nul_scan(self@, addr as int) == spec_nul_scan(self@, i as int),
            decreases MEM_SIZE - i,
        {
            if self.data[i] == 0 {
                return Some(i);
            }
            i = i + 1;
        }
        None
    }

    pub(crate) fn store_u8_raw(&mut self, addr: usize, val: u8)
        requires
            old(self).wf(),
            addr + 1 <= MEM_SIZE,
        ensures
            final(self).wf(),
            final(self)@ == old(self)@.update(addr as int, val),
    {
        self.data.set(addr, val);
    }

    pub(crate) fn store_u16_raw(&mut self, addr: usize, val: u16)
        requires
            old(self).wf(),
            addr + 2 <= MEM_SIZE,
        ensures
            final(self).wf(),
            final(self)@ == store16_le(old(self)@, addr as int, val),
    {
        self.data.set(addr, (val & 0xff) as u8);
        self.data.set(addr + 1, ((val >> 8) & 0xff) as u8);
    }

    pub(crate) fn store_u32_raw(&mut self, addr: usize, val: u32)
        requires
            old(self).wf(),
            addr + 4 <= MEM_SIZE,
        ensures
            final(self).wf(),
            final(self)@ == store32_le(old(self)@, addr as int, val),
    {
        self.data.set(addr, (val & 0xff) as u8);
        self.data.set(addr + 1, ((val >> 8) & 0xff) as u8);
        self.data.set(addr + 2, ((val >> 16) & 0xff) as u8);
        self.data.set(addr + 3, ((val >> 24) & 0xff) as u8);
    }

    pub(crate) fn store_u64_raw(&mut self, addr: usize, val: u64)
        requires
            old(self).wf(),
            addr + 8 <= MEM_SIZE,
        ensures
            final(self).wf(),
            final(self)@ == store64_le(old(self)@, addr as int, val),
    {
        self.data.set(addr, (val & 0xff) as u8);
        self.data.set(addr + 1, ((val >> 8) & 0xff) as u8);
        self.data.set(addr + 2, ((val >> 16) & 0xff) as u8);
        self.data.set(addr + 3, ((val >> 24) & 0xff) as u8);
        self.data.set(addr + 4, ((val >> 32) & 0xff) as u8);
        self.data.set(addr + 5, ((val >> 40) & 0xff) as u8);
        self.data.set(addr + 6, ((val >> 48) & 0xff) as u8);
        self.data.set(addr + 7, ((val >> 56) & 0xff) as u8);
    }
}

/// A store of one byte leaves every load at a disjoint address as it
/// was, and a load of the same byte returns the stored value.
pub proof fn lemma_store_load_8(mem: Seq<u8>, a: int, v: u8, b: int)
    requires
        0 <= a, a + 1 <= mem.len(),
        0 <= b, b + 1 <= mem.len(),
        b + 1 <= a || a + 1 <= b,
    ensures
        mem.update(a, v)[a] == v,
        mem.update(a, v)[b] == mem[b],
{
}

/// A little-endian 16-bit store followed by a 16-bit load at the same
/// address returns the stored value; a load at a disjoint address is
/// unaffected.
pub proof fn lemma_store_load_16(mem: Seq<u8>, a: int, v: u16, b: int)
    requires
        0 <= a, a + 2 <= mem.len(),
        0 <= b, b + 2 <= mem.len(),
        b + 2 <= a || a + 2 <= b,
    ensures
        le16_of(store16_le(mem, a, v), a) == v,
        le16_of(store16_le(mem, a, v), b) == le16_of(mem, b),
{
    let b0 = (v & 0xff) as u8;
    let b1 = ((v >> 8) & 0xff) as u8;
    assert((b0 as u16) | ((b1 as u16) << 8) == v) by (bit_vector)
        requires b0 == (v & 0xff) as u8, b1 == ((v >> 8) & 0xff) as u8;
}

/// A little-endian 32-bit store followed by a 32-bit load at the same
/// address returns the stored value; a load at a disjoint address is
/// unaffected.
pub proof fn lemma_store_load_32(mem: Seq<u8>, a: int, v: u32, b: int)
    requires
        0 <= a, a + 4 <= mem.len(),
        0 <= b, b + 4 <= mem.len(),
        b + 4 <= a || a + 4 <= b,
    ensures
        le32_of(store32_le(mem, a, v), a) == v,
        le32_of(store32_le(mem, a, v), b) == le32_of(mem, b),
{
    let b0 = (v & 0xff) as u8;
    let b1 = ((v >> 8) & 0xff) as u8;
    let b2 = ((v >> 16) & 0xff) as u8;
    let b3 = ((v >> 24) & 0xff) as u8;
    assert((b0 as u32) | ((b1 as u32) << 8) | ((b2 as u32) << 16) | ((b3 as u32) << 24) == v)
        by (bit_vector)
        requires
            b0 == (v & 0xff) as u8,
            b1 == ((v >> 8) & 0xff) as u8,
            b2 == ((v >> 16) & 0xff) as u8,
            b3 == ((v >> 24) & 0xff) as u8;
}

/// A little-endian 64-bit store read back at the same address returns
/// the stored value.
pub proof fn lemma_le64_roundtrip(mem: Seq<u8>, a: int, v: u64)
    requires
        0 <= a, a + 8 <= mem.len(),
    ensures
        le64_of(store64_le(mem, a, v), a) == v,
{
    let b0 = (v & 0xff) as u8;
    let b1 = ((v >> 8) & 0xff) as u8;
    let b2 = ((v >> 16) & 0xff) as u8;
    let b3 = ((v >> 24) & 0xff) as u8;
    let b4 = ((v >> 32) & 0xff) as u8;
    let b5 = ((v >> 40) & 0xff) as u8;
    let b6 = ((v >> 48) & 0xff) as u8;
    let b7 = ((v >> 56) & 0xff) as u8;
    assert((b0 as u64) | ((b1 as u64) << 8) | ((b2 as u64) << 16) | ((b3 as u64) << 24)
        | ((b4 as u64) << 32) | ((b5 as u64) << 40) | ((b6 as u64) << 48) | ((b7 as u64) << 56)
        == v)
        by (bit_vector)
        requires
            b0 == (v & 0xff) as u8,
            b1 == ((v >> 8) & 0xff) as u8,
            b2 == ((v >> 16) & 0xff) as u8,
            b3 == ((v >> 24) & 0xff) as u8,
            b4 == ((v >> 32) & 0xff) as u8,
            b5 == ((v >> 40) & 0xff) as u8,
            b6 == ((v >> 48) & 0xff) as u8,
            b7 == ((v >> 56) & 0xff) as u8;
}

/// A little-endian 64-bit store followed by a 64-bit load at the same
/// address returns the stored value; a load at a disjoint address is
/// unaffected.
pub proof fn lemma_store_load_64(mem: Seq<u8>, a: int, v: u64, b: int)
    requires
        0 <= a, a + 8 <= mem.len(),
        0 <= b, b + 8 <= mem.len(),
        b + 8 <= a || a + 8 <= b,
    ensures
        le64_of(store64_le(mem, a, v), a) == v,
        le64_of(store64_le(mem, a, v), b) == le64_of(mem, b),
{
    lemma_le64_roundtrip(mem, a, v);
    let b0 = (v & 0xff) as u8;
    let b1 = ((v >> 8) & 0xff) as u8;
    let b2 = ((v >> 16) & 0xff) as u8;
    let b3 = ((v >> 24) & 0xff) as u8;
    let b4 = ((v >> 32) & 0xff) as u8;
    let b5 = ((v >> 40) & 0xff) as u8;
    let b6 = ((v >> 48) & 0xff) as u8;
    let b7 = ((v >> 56) & 0xff) as u8;
    assert((b0 as u64) | ((b1 as u64) << 8) | ((b2 as u64) << 16) | ((b3 as u64) << 24)
        | ((b4 as u64) << 32) | ((b5 as u64) << 40) | ((b6 as u64) << 48) | ((b7 as u64) << 56)
        == v)
        by (bit_vector)
        requires
            b0 == (v & 0xff) as u8,
            b1 == ((v >> 8) & 0xff) as u8,
            b2 == ((v >> 16) & 0xff) as u8,
            b3 == ((v >> 24) & 0xff) as u8,
            b4 == ((v >> 32) & 0xff) as u8,
            b5 == ((v >> 40) & 0xff) as u8,
            b6 == ((v >> 48) & 0xff) as u8,
            b7 == ((v >> 56) & 0xff) as u8;
}

/// A mixed-width read sees the little-endian byte representation of an
/// enclosing store: each byte of a stored 64-bit word reads back as the
/// corresponding byte of the value.
pub proof fn lemma_store64_byte(mem: Seq<u8>, a: int, v: u64, k: int)
    requires
        0 <= a, a + 8 <= mem.len(),
        0 <= k < 8,
    ensures
        store64_le(mem, a, v)[a + k] == ((v >> (8 * k)) & 0xff) as u8,
{
    assert((v >> 0) & 0xff == v & 0xff) by (bit_vector);
}

/// Spec-level mathematical view of the CPU state.
pub struct CpuView {
    pub pc: i64,
    pub regs: Seq<u64>,
    pub fregs: Seq<u64>,
    pub mem: Seq<u8>,
    pub fd_remap: Map<u64, u64>,
}

/// A host action requested by the guest through `ecall`, with all
/// guest-side work (register reads, fd remapping, byte extraction)
/// already done. The caller performs the host call and writes the
/// result back into `a0`.
#[derive(Debug, PartialEq, Eq)]
pub enum SyscallAction {
    /// Close the (already remapped) host file descriptor.
    Close { fd: u64 },
    /// Read up to `len` bytes from the host fd; the caller deposits
    /// what was read at guest address `addr`.
    Read { fd: u64, addr: u64, len: u64 },
    /// Write these bytes (copied out of guest memory) to the host fd.
    Write { fd: u64, bytes: Vec<u8> },
    /// Stat through the host; the caller deposits the host's stat
    /// buffer at guest address `addr`.
    Fstatat { fd: u64, addr: u64 },
    /// Open the NUL-terminated path read from guest memory (the NUL is
    /// not included) with the given flags.
    Open { path: Vec<u8>, flags: u64 },
}

/// Spec-level mirror of `SyscallAction`, with byte payloads as
/// sequences.
pub enum SyscallSpec {
    Close { fd: u64 },
    Read { fd: u64, addr: u64, len: u64 },
    Write { fd: u64, bytes: Seq<u8> },
    Fstatat { fd: u64, addr: u64 },
    Open { path: Seq<u8>, flags: u64 },
}

impl View for SyscallAction {
    type V = SyscallSpec;

    open spec fn view(&self) -> SyscallSpec {
        match *self {
            SyscallAction::Close { fd } => SyscallSpec::Close { fd },
            SyscallAction::Read { fd, addr, len } => SyscallSpec::Read { fd, addr, len },
            SyscallAction::Write { fd, ref bytes } => SyscallSpec::Write { fd, bytes: bytes@ },
            SyscallAction::Fstatat { fd, addr } => SyscallSpec::Fstatat { fd, addr },
            SyscallAction::Open { ref path, flags } => SyscallSpec::Open { path: path@, flags },
        }
    }
}

/// The outcome of executing one instruction against a CPU state:
/// fall through or transfer control (`Next`), stop for a host syscall
/// with the PC already advanced (`Sys`), or fail leaving the state
/// unchanged (`Trap`). Guest exit travels as `Trap` with `Error::Exit`.
pub enum ExecOut {
    Next(CpuView),
    Sys(CpuView, SyscallSpec),
    Trap(Error),
}

/// The CPU state of one emulation run: program counter, 32 integer
/// registers (index 0 hardwired to zero), 32 NaN-boxed floating-point
/// slots, the guest memory image, a guest-to-host file-descriptor
/// remapping, and two behaviour toggles.
pub struct CPU {
    pub pc: i64,
    pub regs: [u64; 32],
    pub fregs: [u64; 32],
    pub memory: Memory,
    pub remapped_filenos: HashMap<u64, u64>,
    pub debug_syscalls: bool,
    pub jit_enabled: bool,
}

impl View for CPU {
    type V = CpuView;

    open spec fn view(&self) -> CpuView {
        CpuView {
            pc: self.pc,
            regs: self.regs@,
            fregs: self.fregs@,
            mem: self.memory@,
            fd_remap: self.remapped_filenos@,
        }
    }
}

impl CpuView {
    /// Well-formedness of the mathematical state: full register files,
    /// a full memory image, register 0 reading zero, and an even PC.
    pub open spec fn wf(self) -> bool {
        &&& self.regs.len() == 32
        &&& self.fregs.len() == 32
        &&& self.mem.len() == MEM_SIZE
        &&& self.regs[0] == 0u64
        &&& self.pc % 2 == 0
    }

    /// The state after writing `v` to register `r`; a write to
    /// register 0 changes nothing.
    pub open spec fn with_reg(self, r: Reg, v: u64) -> CpuView {
        if r == 0 {
            self
        } else {
            CpuView {
                pc: self.pc,
                regs: self.regs.update(r as int, v),
                fregs: self.fregs,
                mem: self.mem,
                fd_remap: self.fd_remap,
            }
        }
    }

    /// The state with the PC redirected to `pc`.
    pub open spec fn with_pc(self, pc: i64) -> CpuView {
        CpuView {
            pc,
            regs: self.regs,
            fregs: self.fregs,
            mem: self.mem,
            fd_remap: self.fd_remap,
        }
    }

    /// The state with the memory image replaced.
    pub open spec fn with_mem(self, mem: Seq<u8>) -> CpuView {
        CpuView {
            pc: self.pc,
            regs: self.regs,
            fregs: self.fregs,
            mem,
            fd_remap: self.fd_remap,
        }
    }

    /// The state after the fall-through PC advance by an instruction's
    /// encoded size (64-bit wrapping).
    pub open spec fn advanced(self, size: i64) -> CpuView {
        self.with_pc(vstd::wrapping::i64_specs::wrapping_add(self.pc, size))
    }
}

// The recognised RISC-V Linux syscall numbers.
pub const SYSNO_CLOSE: u64 = 57;
pub const SYSNO_READ: u64 = 63;
pub const SYSNO_WRITE: u64 = 64;
pub const SYSNO_NEWFSTAT: u64 = 80;
pub const SYSNO_EXIT: u64 = 93;
pub const SYSNO_BRK: u64 = 214;
pub const SYSNO_OPEN: u64 = 430;

/// Size in bytes of the host's stat buffer that `newfstatat` fills.
pub const STAT_BUF_SIZE: u64 = 128;

/// Remap a guest file descriptor through the remapping table; absent
/// entries pass through unchanged.
pub open spec fn spec_remap(fd_remap: Map<u64, u64>, fd: u64) -> u64 {
    if fd_remap.contains_key(fd) {
        fd_remap[fd]
    } else {
        fd
    }
}

/// The index of the first NUL byte at or after `a`, if any.
pub open spec fn spec_nul_scan(mem: Seq<u8>, a: int) -> Option<int>
    decreases mem.len() - a
        when 0 <= a <= mem.len()
{
    if a >= mem.len() {
        None
    } else if mem[a] == 0 {
        Some(a)
    } else {
        spec_nul_scan(mem, a + 1)
    }
}

/// A successful NUL scan lands on a NUL byte within the memory, at or
/// after where it started.
pub proof fn lemma_nul_scan_props(mem: Seq<u8>, a: int)
    requires
        0 <= a <= mem.len(),
    ensures
        spec_nul_scan(mem, a) matches Some(i) ==> a <= i < mem.len() && mem[i] == 0,
    decreases mem.len() - a,
{
    if a < mem.len() && mem[a] != 0 {
        lemma_nul_scan_props(mem, a + 1);
    }
}

/// What one `ecall` does, given the pre-state and the instruction's
/// size: which host action it requests (with the PC already advanced),
/// or how it stops. Following the RISC-V Linux ABI, the syscall number
/// is read from `a7` and the arguments from `a0..a2`.
///
/// `exit` stops the run with the guest's code; `brk` is ignored and
/// returns 0; an unknown number is a hard failure; `write` and `open`
/// fail with `OutOfBounds` when their guest buffers do not fit in
/// memory, as do `read` and the stat call when the region the host
/// would fill does not fit.
pub open spec fn spec_ecall(pre: CpuView, size: i64) -> ExecOut {
    let a0 = pre.regs[10];
    let a1 = pre.regs[11];
    let a2 = pre.regs[12];
    let nr = pre.regs[17];
    let post = pre.advanced(size);
    if nr == SYSNO_EXIT {
        ExecOut::Trap(Error::Exit(a0 as i32))
    } else if nr == SYSNO_BRK {
        ExecOut::Next(post.with_reg(10, 0))
    } else if nr == SYSNO_CLOSE {
        ExecOut::Sys(post, SyscallSpec::Close { fd: spec_remap(pre.fd_remap, a0) })
    } else if nr == SYSNO_READ {
        if a1 + a2 <= MEM_SIZE {
            ExecOut::Sys(post, SyscallSpec::Read {
                fd: spec_remap(pre.fd_remap, a0),
                addr: a1,
                len: a2,
            })
        } else {
            ExecOut::Trap(Error::OutOfBounds)
        }
    } else if nr == SYSNO_WRITE {
        if a1 + a2 <= MEM_SIZE {
            ExecOut::Sys(post, SyscallSpec::Write {
                fd: spec_remap(pre.fd_remap, a0),
                bytes: pre.mem.subrange(a1 as int, (a1 + a2) as int),
            })
        } else {
            ExecOut::Trap(Error::OutOfBounds)
        }
    } else if nr == SYSNO_NEWFSTAT {
        if a1 + STAT_BUF_SIZE <= MEM_SIZE {
            ExecOut::Sys(post, SyscallSpec::Fstatat {
                fd: spec_remap(pre.fd_remap, a0),
                addr: a1,
            })
        } else {
            ExecOut::Trap(Error::OutOfBounds)
        }
    } else if nr == SYSNO_OPEN {
        if a0 <= MEM_SIZE {
            match spec_nul_scan(pre.mem, a0 as int) {
                Some(end) => ExecOut::Sys(post, SyscallSpec::Open {
                    path: pre.mem.subrange(a0 as int, end),
                    flags: a1,
                }),
                None => ExecOut::Trap(Error::OutOfBounds),
            }
        } else {
            ExecOut::Trap(Error::OutOfBounds)
        }
    } else {
        ExecOut::Trap(Error::Unimplemented("unknown syscall"))
    }
}

impl CPU {
    pub open spec fn wf(&self) -> bool {
        self@.wf()
    }

    pub fn new(jit_enabled: bool) -> (cpu: CPU)
        ensures
            cpu.wf(),
            cpu@.pc == 0,
            forall|r: int| 0 <= r < 32 ==> cpu@.regs[r] == 0u64,
            forall|r: int| 0 <= r < 32 ==> cpu@.fregs[r] == 0xffff_ffff_ffff_ffffu64,
            forall|i: int| 0 <= i < MEM_SIZE ==> cpu@.mem[i] == 0u8,
            cpu@.fd_remap == Map::<u64, u64>::empty(),
            cpu.debug_syscalls == true,
            cpu.jit_enabled == jit_enabled,
    {
        CPU {
            pc: 0,
            regs: [0u64; 32],
            fregs: [0xffff_ffff_ffff_ffffu64; 32],
            memory: Memory::new(),
            remapped_filenos: HashMap::new(),
            debug_syscalls: true,
            jit_enabled,
        }
    }

    /// Read a general-purpose register.
    pub fn get_reg(&self, reg: Reg) -> (r: u64)
        requires
            self.wf(),
            reg < 32,
        ensures
            r == self@.regs[reg as int],
    {
        self.regs[reg as usize]
    }

    /// Write a general-purpose register. Writes to register 0 are
    /// silently ignored; it always reads as zero.
    pub fn set_reg(&mut self, reg: Reg, val: u64)
        requires
            old(self).wf(),
            reg < 32,
        ensures
            final(self).wf(),
            final(self)@.regs == if reg == 0 {
                old(self)@.regs
            } else {
                old(self)@.regs.update(reg as int, val)
            },
            final(self)@.pc == old(self)@.pc,
            final(self)@.fregs == old(self)@.fregs,
            final(self)@.mem == old(self)@.mem,
            final(self)@.fd_remap == old(self)@.fd_remap,
            final(self).debug_syscalls == old(self).debug_syscalls,
            final(self).jit_enabled == old(self).jit_enabled,
    {
        if reg != crate::insts::REG_ZR {
            self.regs[reg as usize] = val;
        }
    }

    /// Byte offset of a register's slot within the register file, as
    /// native code addressing the file through a base pointer uses it.
    pub fn get_reg_offset(&self, reg: Reg) -> (r: usize)
        requires
            reg < 32,
        ensures
            r == reg * 8,
    {
        (reg as usize) * 8
    }

    /// Store the bit pattern of a 32-bit float into a floating-point
    /// slot, NaN-boxed: low 32 bits hold the value, upper 32 bits are
    /// all-ones.
    pub fn set_freg_bits32(&mut self, reg: crate::insts::FReg, bits: u32)
        requires
            old(self).wf(),
            reg < 32,
        ensures
            final(self).wf(),
            final(self)@.fregs == old(self)@.fregs.update(
                reg as int,
                (0xffff_ffff_0000_0000u64 | bits as u64),
            ),
            final(self)@.pc == old(self)@.pc,
            final(self)@.regs == old(self)@.regs,
            final(self)@.mem == old(self)@.mem,
            final(self)@.fd_remap == old(self)@.fd_remap,
    {
        self.fregs[reg as usize] = 0xffff_ffff_0000_0000u64 | (bits as u64);
    }

    /// Store the bit pattern of a 64-bit float into a floating-point
    /// slot; a double occupies the whole word.
    pub fn set_freg_bits64(&mut self, reg: crate::insts::FReg, bits: u64)
        requires
            old(self).wf(),
            reg < 32,
        ensures
            final(self).wf(),
            final(self)@.fregs == old(self)@.fregs.update(reg as int, bits),
            final(self)@.pc == old(self)@.pc,
            final(self)@.regs == old(self)@.regs,
            final(self)@.mem == old(self)@.mem,
            final(self)@.fd_remap == old(self)@.fd_remap,
    {
        self.fregs[reg as usize] = bits;
    }

    /// Read the raw bits of a floating-point slot.
    pub fn get_freg_bits(&self, reg: crate::insts::FReg) -> (r: u64)
        requires
            self.wf(),
            reg < 32,
        ensures
            r == self@.fregs[reg as int],
    {
        self.fregs[reg as usize]
    }

    /// Execute from the current PC to the end of one translation block.
    ///
    /// On a cache hit the block's execution counter is bumped; its
    /// lowered code runs when installed, the interpreter otherwise,
    /// with provably identical effect; a counter past the kick-in
    /// threshold triggers the batch lowering pass first. On a miss,
    /// instructions are decoded and executed one at a time until the
    /// first control transfer, and the accumulated block is installed
    /// at the entry PC (labelled when a symbol starts exactly there).
    ///
    /// Returns `Ok(None)` when the block ran to its control transfer,
    /// `Ok(Some(action))` when it ended in an `ecall` whose host action
    /// the caller must perform (writing the result to `a0` afterwards),
    /// and `Err` on a trap or guest exit. The PC is even after every
    /// step.
    #[verifier::rlimit(100)]
    pub fn step(&mut self, jit: &mut JIT, syms: Option<&SymbolTreeNode>) -> (r: Result<
        Option<SyscallAction>,
        Error,
    >)
        requires
            old(self).wf(),
            old(jit).wf(),
        ensures
            final(self).wf(),
            final(jit).wf(),
            final(self)@.pc % 2 == 0,
            final(self).debug_syscalls == old(self).debug_syscalls,
            final(self).jit_enabled == old(self).jit_enabled,
            // installed blocks are immutable and never evicted
            forall|pc2: i64| #[trigger] old(jit).spec_has(pc2) ==> final(jit).spec_has(pc2)
                && final(jit).spec_tb(pc2).start == old(jit).spec_tb(pc2).start
                && final(jit).spec_tb(pc2).instrs@ == old(jit).spec_tb(pc2).instrs@,
            // a hit replays the cached block exactly and bumps its
            // counter; insertion is only on first encounter, so the
            // cache's keys do not change
            old(jit).spec_has(old(self).pc) ==> {
                &&& outcome_matches(r, final(self)@,
                        spec_tb_run(old(jit).spec_tb(old(self).pc).instrs@, old(self)@))
                &&& final(jit).spec_tb(old(self).pc).exec_count
                        == saturating_inc(old(jit).spec_tb(old(self).pc).exec_count)
                &&& final(jit).index@ == old(jit).index@
                &&& final(jit).tbs@.len() == old(jit).tbs@.len()
            },
            // a miss builds while executing and installs the block,
            // fresh: one execution, no lowered code yet, and marked
            // failed only when acceleration is off
            !old(jit).spec_has(old(self).pc) ==> {
                let b = spec_build_from(old(self)@);
                &&& outcome_matches(r, final(self)@, b.run)
                &&& (b.run matches TbRun::Fail(_, _) ==> final(jit).tbs@ == old(jit).tbs@
                        && final(jit).index@ == old(jit).index@)
                &&& (!(b.run matches TbRun::Fail(_, _)) ==> final(jit).spec_has(old(self).pc)
                        && final(jit).spec_tb(old(self).pc).start == old(self).pc
                        && final(jit).spec_tb(old(self).pc).instrs@ == b.instrs
                        && final(jit).spec_tb(old(self).pc).exec_count == 1
                        && final(jit).spec_tb(old(self).pc).jit_code is None
                        && final(jit).spec_tb(old(self).pc).jit_failed
                            == !old(self).jit_enabled
                        && final(jit).tbs@.len() == old(jit).tbs@.len() + 1)
            },
    {
        let pc: i64 = self.pc;
        let idx_opt: Option<usize> = match jit.index.get(&pc) {
            Some(rf) => Some(*rf),
            None => None,
        };
        match idx_opt {
            Some(idx) => {
                proof {
                    assert(jit.index@.contains_key(pc) && jit.index@[pc] == idx);
                }
                let ghost tb0 = jit.tbs@[idx as int];
                let c: i64 = jit.tbs[idx].exec_count;
                let newc: i64 = if c < i64::MAX { c + 1 } else { c };
                let tbm = vstd::std_specs::vec::vec_index_mut(&mut jit.tbs, idx);
                tbm.exec_count = newc;
                proof {
                    assert(jit.tbs@ =~= old(jit).tbs@.update(idx as int, jit.tbs@[idx as int]));
                    assert forall|p2: i64| #[trigger] jit.index@.contains_key(p2)
                        implies jit.index@[p2] < jit.tbs@.len()
                            && jit.tbs@[jit.index@[p2] as int].start == p2 by {
                        assert(old(jit).tbs@[jit.index@[p2] as int].start == p2);
                    }
                    assert forall|i2: int| 0 <= i2 < jit.tbs@.len()
                        implies tb_wf(#[trigger] jit.tbs@[i2])
                            && jit.index@.contains_key(jit.tbs@[i2].start)
                            && jit.index@[jit.tbs@[i2].start] == i2 by {
                        assert(tb_wf(old(jit).tbs@[i2]));
                    }
                }
                let has_code: bool = match &jit.tbs[idx].jit_code {
                    Some(_) => true,
                    None => false,
                };
                if has_code {
                    match &jit.tbs[idx].jit_code {
                        Some(ops) => {
                            let res = run_lowered(
                                self,
                                ops,
                                Ghost(jit.tbs@[idx as int].instrs@),
                            );
                            match res {
                                Ok(()) => Ok(None),
                                Err(e) => Err(e),
                            }
                        },
                        None => {
                            // unreachable: this branch is guarded by has_code
                            proof { assert(false); }
                            Err(Error::Unimplemented("missing lowered code"))
                        },
                    }
                } else {
                    let failed: bool = jit.tbs[idx].jit_failed;
                    if !failed && c > TB_KICK_IN_JIT {
                        jit.kick_in();
                    }
                    exec_tb(self, &jit.tbs[idx].instrs)
                }
            },
            None => {
                let ghost pre0 = self@;
                let mut buf: Vec<(Inst, u8)> = Vec::new();
                proof {
                    assert(Seq::<(Inst, u8)>::empty() + spec_build_from(self@).instrs
                        =~= spec_build_from(self@).instrs);
                }
                loop
                    invariant
                        self.wf(),
                        jit.wf(),
                        jit.tbs@ == old(jit).tbs@,
                        jit.index@ == old(jit).index@,
                        !jit.index@.contains_key(pc),
                        pc == old(self).pc,
                        pre0 == old(self)@,
                        self.debug_syscalls == old(self).debug_syscalls,
                        self.jit_enabled == old(self).jit_enabled,
                        forall|k: int| 0 <= k < buf@.len()
                            ==> (#[trigger] buf@[k].0).wf()
                                && (buf@[k].1 == 2 || buf@[k].1 == 4)
                                && !buf@[k].0.spec_is_terminator(),
                        spec_build_from(pre0).instrs == buf@ + spec_build_from(self@).instrs,
                        spec_build_from(pre0).run == spec_build_from(self@).run,
                    decreases MEM_SIZE - self@.pc,
                {
                    let ghost cur = self@;
                    if self.pc < 0 || self.pc > MEM_SIZE as i64 - 4 {
                        return Err(Error::OutOfBounds);
                    }
                    proof { lemma_small_i64_fits_usize(self.pc); }
                    let word: u32 = self.memory.load_u32_raw(self.pc as usize);
                    proof { lemma_parse_instruction_wf(word); }
                    match Inst::parse(word) {
                        Err(e) => {
                            return Err(e);
                        },
                        Ok((inst, size)) => {
                            proof {
                                assert(spec_parse_instruction(word)
                                    == Ok::<(Inst, usize), Error>((inst, size)));
                                assert(inst.wf());
                                assert(size == 2 || size == 4);
                            }
                            match inst.exec(size as i64, self) {
                                Err(e) => {
                                    return Err(e);
                                },
                                Ok(opt) => {
                                    let ghost buf_pre = buf@;
                                    buf.push((inst, size as u8));
                                    proof {
                                        assert(buf@ =~= buf_pre + seq![(inst, size as u8)]);
                                    }
                                    let term: bool = inst.is_terminator();
                                    match opt {
                                        Some(a) => {
                                            proof {
                                                assert(inst.spec_is_terminator());
                                                assert(spec_build_from(pre0).instrs =~= buf@);
                                                assert(buf@.last() == (inst, size as u8));
                                                assert(forall|k: int| 0 <= k < buf@.len() - 1
                                                    ==> buf@[k] == buf_pre[k]);
                                                assert(tb_instrs_wf(buf@));
                                            }
                                            let label = lookup_label(syms, pc);
                                            let failed: bool = !self.jit_enabled;
                                            let ghost jpre = *jit;
                                            jit.install_tb(pc, buf, label, failed);
                                            proof {
                                                assert forall|p2: i64| #[trigger] old(jit).spec_has(p2)
                                                    implies jit.spec_has(p2)
                                                        && jit.spec_tb(p2).start == old(jit).spec_tb(p2).start
                                                        && jit.spec_tb(p2).instrs@ == old(jit).spec_tb(p2).instrs@ by {
                                                    assert(jpre.spec_has(p2));
                                                }
                                            }
                                            return Ok(Some(a));
                                        },
                                        None => {
                                            if term {
                                                proof {
                                                    assert(spec_build_from(pre0).instrs =~= buf@);
                                                    assert(buf@.last() == (inst, size as u8));
                                                    assert(forall|k: int| 0 <= k < buf@.len() - 1
                                                        ==> buf@[k] == buf_pre[k]);
                                                    assert(tb_instrs_wf(buf@));
                                                }
                                                let label = lookup_label(syms, pc);
                                                let failed: bool = !self.jit_enabled;
                                                let ghost jpre = *jit;
                                                jit.install_tb(pc, buf, label, failed);
                                                proof {
                                                    assert forall|p2: i64| #[trigger] old(jit).spec_has(p2)
                                                        implies jit.spec_has(p2)
                                                            && jit.spec_tb(p2).start == old(jit).spec_tb(p2).start
                                                            && jit.spec_tb(p2).instrs@ == old(jit).spec_tb(p2).instrs@ by {
                                                        assert(jpre.spec_has(p2));
                                                    }
                                                }
                                                return Ok(None);
                                            }
                                            proof {
                                                assert(buf@ == buf_pre.push((inst, size as u8)));
                                                assert(buf@[buf@.len() - 1] == (inst, size as u8));
                                                assert(!inst.spec_is_terminator());
                                                assert((size as u8) == 2 || (size as u8) == 4);
                                                assert(forall|k: int| 0 <= k < buf@.len() - 1
                                                    ==> buf@[k] == buf_pre[k]);
                                                assert forall|k: int| 0 <= k < buf@.len()
                                                    implies (#[trigger] buf@[k].0).wf()
                                                        && (buf@[k].1 == 2 || buf@[k].1 == 4)
                                                        && !buf@[k].0.spec_is_terminator() by {
                                                    if k < buf@.len() - 1 {
                                                        assert(buf@[k] == buf_pre[k]);
                                                    } else {
                                                        assert(buf@[k] == (inst, size as u8));
                                                    }
                                                }
                                                lemma_build_fuel_enough(cur);
                                                lemma_build_fuel_enough(self@);
                                                assert(self@.pc == cur.pc + size);
                                                lemma_build_fuel_irrelevant(
                                                    self@,
                                                    (build_fuel(cur) - 1) as nat,
                                                    build_fuel(self@),
                                                );
                                                assert((buf_pre + seq![(inst, size as u8)])
                                                    + spec_build_from(self@).instrs
                                                    =~= buf_pre + (seq![(inst, size as u8)]
                                                        + spec_build_from(self@).instrs));
                                            }
                                        },
                                    }
                                },
                            }
                        },
                    }
                }
            },
        }
    }

    /// Set the entry PC, as taken from the loaded executable's header.
    /// Instruction addresses are even.
    pub fn set_entry(&mut self, entry: i64)
        requires
            old(self).wf(),
            entry % 2 == 0,
        ensures
            final(self).wf(),
            final(self)@ == old(self)@.with_pc(entry),
            final(self).debug_syscalls == old(self).debug_syscalls,
            final(self).jit_enabled == old(self).jit_enabled,
    {
        self.pc = entry;
    }

    /// Lay out the guest stack: `sp` is set to the top-of-stack address,
    /// and when arguments are given, the cell at `sp` holds `argc`, the
    /// following cells hold one pointer per argument and then a null
    /// pointer, and the argument strings lie after the pointer table
    /// (at `sp + 8*(2+argc) + total`), each NUL-terminated. Memory below
    /// the stack top — the loaded program image — is untouched.
    #[verifier::rlimit(80)]
    pub fn setup_stack(&mut self, argv: Option<&Vec<Vec<u8>>>)
        requires
            old(self).wf(),
            argv matches Some(args)
                ==> TOP_OF_STACK + (2 + args@.len()) * 8 + 2 * argv_total(args@) <= MEM_SIZE,
        ensures
            final(self).wf(),
            final(self)@.pc == old(self)@.pc,
            final(self)@.fregs == old(self)@.fregs,
            final(self)@.fd_remap == old(self)@.fd_remap,
            final(self).debug_syscalls == old(self).debug_syscalls,
            final(self).jit_enabled == old(self).jit_enabled,
            final(self)@.regs == old(self)@.regs.update(
                REG_SP as int,
                TOP_OF_STACK as u64,
            ),
            forall|a: int| 0 <= a < TOP_OF_STACK ==> final(self)@.mem[a] == old(self)@.mem[a],
            match argv {
                None => final(self)@.mem == old(self)@.mem,
                Some(args) => {
                    let argc = args@.len() as int;
                    let base = TOP_OF_STACK + (2 + argc) * 8 + argv_total(args@);
                    &&& le64_of(final(self)@.mem, TOP_OF_STACK as int) == argc
                    &&& le64_of(final(self)@.mem, TOP_OF_STACK + (argc + 1) * 8) == 0
                    &&& forall|i: int| 0 <= i < argc
                        ==> le64_of(final(self)@.mem, TOP_OF_STACK + (i + 1) * 8)
                            == base + argv_off(args@, i)
                    &&& forall|i: int, j: int| 0 <= i < argc && 0 <= j < args@[i]@.len()
                        ==> final(self)@.mem[base + argv_off(args@, i) + j] == args@[i]@[j]
                    &&& forall|i: int| 0 <= i < argc
                        ==> final(self)@.mem[base + argv_off(args@, i) + args@[i]@.len()]
                            == 0u8
                },
            },
    {
        let tos: usize = TOP_OF_STACK;
        self.set_reg(REG_SP, tos as u64);
        let args = match argv {
            None => {
                return ;
            },
            Some(a) => a,
        };
        let ghost av = args@;
        let argc: usize = args.len();
        // total size of the argument strings with their terminators
        let mut total: usize = 0;
        let mut i: usize = 0;
        while i < argc
            invariant
                0 <= i <= av.len(),
                av == args@,
                argc == av.len(),
                total == argv_off(av, i as int),
                tos + (2 + argc) * 8 + 2 * argv_total(av) <= MEM_SIZE,
            decreases argc - i,
        {
            proof {
                lemma_argv_off_mono(av, i + 1);
            }
            total = total + args[i].len() + 1;
            i = i + 1;
        }
        let ghost base = tos + (2 + argc) * 8 + argv_total(av);
        proof {
            assert forall|i2: int| 0 <= i2 <= av.len()
                implies 0 <= #[trigger] argv_off(av, i2) <= argv_total(av) by {
                lemma_argv_off_mono(av, i2);
            }
            assert forall|x: int, y: int| 0 <= x <= y <= av.len()
                implies #[trigger] argv_off(av, x) <= #[trigger] argv_off(av, y) by {
                lemma_argv_off_pair(av, x, y);
            }
        }
        let ghost m_argc_pre = self@.mem;
        self.memory.store_u64_raw(tos, argc as u64);
        proof {
            lemma_le64_roundtrip(m_argc_pre, tos as int, argc as u64);
        }
        let ghost m_null_pre = self@.mem;
        self.memory.store_u64_raw(tos + (argc + 1) * 8, 0);
        proof {
            lemma_le64_roundtrip(m_null_pre, tos + (argc + 1) * 8, 0u64);
        }
        let mut pos: usize = tos + (2 + argc) * 8 + total;
        let mut k: usize = 0;
        while k < argc
            invariant
                0 <= k <= av.len(),
                av == args@,
                argc == av.len(),
                self.wf(),
                self@.pc == old(self)@.pc,
                self@.fregs == old(self)@.fregs,
                self@.fd_remap == old(self)@.fd_remap,
                self.debug_syscalls == old(self).debug_syscalls,
                self.jit_enabled == old(self).jit_enabled,
                self@.regs == old(self)@.regs.update(REG_SP as int, TOP_OF_STACK as u64),
                tos == TOP_OF_STACK,
                base == tos + (2 + argc) * 8 + argv_total(av),
                tos + (2 + argc) * 8 + 2 * argv_total(av) <= MEM_SIZE,
                pos == base + argv_off(av, k as int),
                forall|i2: int| 0 <= i2 <= av.len()
                    ==> 0 <= #[trigger] argv_off(av, i2) <= argv_total(av),
                forall|x: int, y: int| 0 <= x <= y <= av.len()
                    ==> #[trigger] argv_off(av, x) <= #[trigger] argv_off(av, y),
                forall|a: int| 0 <= a < tos ==> self@.mem[a] == old(self)@.mem[a],
                le64_of(self@.mem, tos as int) == argc,
                le64_of(self@.mem, tos + (argc + 1) * 8) == 0,
                forall|i2: int| 0 <= i2 < k
                    ==> le64_of(self@.mem, tos + (i2 + 1) * 8)
                        == base + argv_off(av, i2),
                forall|i2: int, j: int| 0 <= i2 < k && 0 <= j < av[i2]@.len()
                    ==> self@.mem[base + argv_off(av, i2) + j] == av[i2]@[j],
                forall|i2: int| 0 <= i2 < k
                    ==> self@.mem[base + argv_off(av, i2) + av[i2]@.len()] == 0u8,
            decreases argc - k,
        {
            proof {
                lemma_argv_off_mono(av, k as int);
                lemma_argv_off_mono(av, k + 1);
            }
            let ghost m_ptr_pre = self@.mem;
            self.memory.store_u64_raw(tos + (1 + k) * 8, pos as u64);
            proof {
                lemma_le64_roundtrip(m_ptr_pre, tos + (1 + k) * 8, pos as u64);
            }
            proof {
                assert forall|i2: int, j2: int| 0 <= i2 < k && 0 <= j2 < av[i2]@.len()
                    implies self@.mem[base + argv_off(av, i2) + j2] == av[i2]@[j2] by {
                    assert(argv_off(av, i2) >= 0);
                    assert(argv_off(av, i2 + 1) <= argv_off(av, k as int));
                    assert(self@.mem[base + argv_off(av, i2) + j2]
                        == m_ptr_pre[base + argv_off(av, i2) + j2]);
                }
                assert forall|i2: int| 0 <= i2 < k
                    implies self@.mem[base + argv_off(av, i2) + av[i2]@.len()] == 0u8 by {
                    assert(argv_off(av, i2) >= 0);
                    assert(argv_off(av, i2 + 1) <= argv_off(av, k as int));
                    assert(self@.mem[base + argv_off(av, i2) + av[i2]@.len()]
                        == m_ptr_pre[base + argv_off(av, i2) + av[i2]@.len()]);
                }
            }
            let arg: &Vec<u8> = &args[k];
            let n: usize = arg.len();
            let mut j: usize = 0;
            while j < n
                invariant
                    0 <= j <= n,
                    av == args@,
                    argc == av.len(),
                    0 <= k < av.len(),
                    arg@ == av[k as int]@,
                    n == av[k as int]@.len(),
                    self.wf(),
                    self@.pc == old(self)@.pc,
                    self@.fregs == old(self)@.fregs,
                    self@.fd_remap == old(self)@.fd_remap,
                    self.debug_syscalls == old(self).debug_syscalls,
                    self.jit_enabled == old(self).jit_enabled,
                    self@.regs == old(self)@.regs.update(REG_SP as int, TOP_OF_STACK as u64),
                    tos == TOP_OF_STACK,
                    base == tos + (2 + argc) * 8 + argv_total(av),
                    pos == base + argv_off(av, k as int),
                    pos + n + 1 <= MEM_SIZE,
                    forall|i2: int| 0 <= i2 <= av.len()
                        ==> 0 <= #[trigger] argv_off(av, i2) <= argv_total(av),
                    forall|x: int, y: int| 0 <= x <= y <= av.len()
                        ==> #[trigger] argv_off(av, x) <= #[trigger] argv_off(av, y),
                    tos + (2 + argc) * 8 + 2 * argv_total(av) <= MEM_SIZE,
                    forall|a: int| 0 <= a < tos ==> self@.mem[a] == old(self)@.mem[a],
                    le64_of(self@.mem, tos as int) == argc,
                    le64_of(self@.mem, tos + (argc + 1) * 8) == 0,
                    forall|i2: int| 0 <= i2 <= k
                        ==> le64_of(self@.mem, tos + (i2 + 1) * 8)
                            == base + argv_off(av, i2),
                    forall|i2: int, j2: int| 0 <= i2 < k && 0 <= j2 < av[i2]@.len()
                        ==> self@.mem[base + argv_off(av, i2) + j2] == av[i2]@[j2],
                    forall|i2: int| 0 <= i2 < k
                        ==> self@.mem[base + argv_off(av, i2) + av[i2]@.len()] == 0u8,
                    forall|j2: int| 0 <= j2 < j ==> self@.mem[pos + j2] == av[k as int]@[j2],
                decreases n - j,
            {
                let b: u8 = arg[j];
                let ghost m_b_pre = self@.mem;
                self.memory.store_u8_raw(pos + j, b);
                    proof {
                    assert forall|i2: int, j2: int| 0 <= i2 < k && 0 <= j2 < av[i2]@.len()
                        implies self@.mem[base + argv_off(av, i2) + j2] == av[i2]@[j2] by {
                        assert(argv_off(av, i2) >= 0);
                        assert(argv_off(av, i2 + 1) <= argv_off(av, k as int));
                        assert(self@.mem[base + argv_off(av, i2) + j2]
                                == m_b_pre[base + argv_off(av, i2) + j2]);
                    }
                    assert forall|i2: int| 0 <= i2 < k
                        implies self@.mem[base + argv_off(av, i2) + av[i2]@.len()] == 0u8 by {
                        assert(argv_off(av, i2) >= 0);
                        assert(argv_off(av, i2 + 1) <= argv_off(av, k as int));
                        assert(self@.mem[base + argv_off(av, i2) + av[i2]@.len()]
                                == m_b_pre[base + argv_off(av, i2) + av[i2]@.len()]);
                    }
                }
                j = j + 1;
            }
            let ghost m_nul_pre = self@.mem;
            self.memory.store_u8_raw(pos + n, 0);
            proof {
                assert forall|i2: int, j2: int| 0 <= i2 < k && 0 <= j2 < av[i2]@.len()
                    implies self@.mem[base + argv_off(av, i2) + j2] == av[i2]@[j2] by {
                    assert(argv_off(av, i2) >= 0);
                    assert(argv_off(av, i2 + 1) <= argv_off(av, k as int));
                    assert(self@.mem[base + argv_off(av, i2) + j2]
                        == m_nul_pre[base + argv_off(av, i2) + j2]);
                }
                assert forall|i2: int| 0 <= i2 < k
                    implies self@.mem[base + argv_off(av, i2) + av[i2]@.len()] == 0u8 by {
                    assert(argv_off(av, i2) >= 0);
                    assert(argv_off(av, i2 + 1) <= argv_off(av, k as int));
                    assert(self@.mem[base + argv_off(av, i2) + av[i2]@.len()]
                        == m_nul_pre[base + argv_off(av, i2) + av[i2]@.len()]);
                }
            }
            pos = pos + n + 1;
            k = k + 1;
        }
    }

    /// The syscall adapter's guest-side half: read the syscall number
    /// and arguments from the register file, remap the file descriptor,
    /// extract any guest bytes the host will need, and advance the PC.
    /// The returned action is performed by the caller, which then
    /// writes the host's result (or negated errno) to `a0` through
    /// `set_reg`.
    pub fn ecall(&mut self, inst_size: i64) -> (r: Result<Option<SyscallAction>, Error>)
        requires
            old(self).wf(),
            inst_size == 2 || inst_size == 4,
        ensures
            final(self).wf(),
            match spec_ecall(old(self)@, inst_size) {
                ExecOut::Next(post) => r matches Ok(None) && final(self)@ == post,
                ExecOut::Sys(post, act) => r matches Ok(Some(a))
                    && a@ == act && final(self)@ == post,
                ExecOut::Trap(e) => r matches Err(e2) && e2 == e
                    && final(self)@ == old(self)@,
            },
            final(self).debug_syscalls == old(self).debug_syscalls,
            final(self).jit_enabled == old(self).jit_enabled,
    {
        let a0: u64 = self.get_reg(crate::insts::REG_A0);
        let a1: u64 = self.get_reg(crate::insts::REG_A1);
        let a2: u64 = self.get_reg(crate::insts::REG_A2);
        let nr: u64 = self.get_reg(crate::insts::REG_A7);
        if nr == SYSNO_EXIT {
            return Err(Error::Exit(a0 as i32));
        }
        if nr == SYSNO_BRK {
            self.pc = self.pc.wrapping_add(inst_size);
            proof { lemma_wrapping_add_even(old(self).pc, inst_size); }
            self.set_reg(crate::insts::REG_A0, 0);
            return Ok(None);
        }
        let remapped: u64 = match self.remapped_filenos.get(&a0) {
            Some(v) => *v,
            None => a0,
        };
        proof {
            assert(remapped == spec_remap(old(self)@.fd_remap, a0));
        }
        if nr == SYSNO_CLOSE {
            self.pc = self.pc.wrapping_add(inst_size);
            proof { lemma_wrapping_add_even(old(self).pc, inst_size); }
            Ok(Some(SyscallAction::Close { fd: remapped }))
        } else if nr == SYSNO_READ {
            if a1 <= MEM_SIZE as u64 && a2 <= MEM_SIZE as u64 - a1 {
                self.pc = self.pc.wrapping_add(inst_size);
                proof { lemma_wrapping_add_even(old(self).pc, inst_size); }
                Ok(Some(SyscallAction::Read { fd: remapped, addr: a1, len: a2 }))
            } else {
                Err(Error::OutOfBounds)
            }
        } else if nr == SYSNO_WRITE {
            if a1 <= MEM_SIZE as u64 && a2 <= MEM_SIZE as u64 - a1 {
                proof { lemma_small_u64_fits_usize(a1); lemma_small_u64_fits_usize(a2); }
                let bytes: Vec<u8> = self.memory.read_range(a1 as usize, a2 as usize);
                self.pc = self.pc.wrapping_add(inst_size);
                proof { lemma_wrapping_add_even(old(self).pc, inst_size); }
                Ok(Some(SyscallAction::Write { fd: remapped, bytes }))
            } else {
                Err(Error::OutOfBounds)
            }
        } else if nr == SYSNO_NEWFSTAT {
            if a1 <= MEM_SIZE as u64 && STAT_BUF_SIZE <= MEM_SIZE as u64 - a1 {
                self.pc = self.pc.wrapping_add(inst_size);
                proof { lemma_wrapping_add_even(old(self).pc, inst_size); }
                Ok(Some(SyscallAction::Fstatat { fd: remapped, addr: a1 }))
            } else {
                Err(Error::OutOfBounds)
            }
        } else if nr == SYSNO_OPEN {
            if a0 <= MEM_SIZE as u64 {
                proof { lemma_small_u64_fits_usize(a0); }
                proof { lemma_nul_scan_props(old(self)@.mem, a0 as int); }
                match self.memory.find_nul(a0 as usize) {
                    Some(end) => {
                        let path: Vec<u8> = self.memory.read_range(
                            a0 as usize,
                            end - a0 as usize,
                        );
                        self.pc = self.pc.wrapping_add(inst_size);
                        proof { lemma_wrapping_add_even(old(self).pc, inst_size); }
                        Ok(Some(SyscallAction::Open { path, flags: a1 }))
                    }
                    None => Err(Error::OutOfBounds),
                }
            } else {
                Err(Error::OutOfBounds)
            }
        } else {
            Err(Error::Unimplemented("unknown syscall"))
        }
    }
}

/// The sum of two even 64-bit values is even, also under wrapping.
pub proof fn lemma_wrapping_add_even(a: i64, b: i64)
    requires
        a % 2 == 0,
        b % 2 == 0,
    ensures
        vstd::wrapping::i64_specs::wrapping_add(a, b) % 2 == 0,
{
}

/// A value bounded by the memory size fits in `usize` unchanged.
pub proof fn lemma_small_u64_fits_usize(x: u64)
    by (bit_vector)
    ensures
        x <= 0x100_0000 ==> x as usize == x,
{
}

/// A non-negative value bounded by the memory size fits in `usize`
/// unchanged.
pub proof fn lemma_small_i64_fits_usize(x: i64)
    by (bit_vector)
    ensures
        0 <= x <= 0x100_0000 ==> x as usize == x,
{
}

/// The label a fresh block gets: the name of a symbol that starts
/// exactly at the entry PC, if the symbol index knows one.
fn lookup_label(syms: Option<&SymbolTreeNode>, pc: i64) -> Option<String> {
    match syms {
        Some(t) => match t.lookup(pc) {
            Some((name, s)) => if s == pc {
                Some(name.to_owned())
            } else {
                None
            },
            None => None,
        },
        None => None,
    }
}

/// Register 0 is hardwired to zero: after any write to it (which the
/// register-file model discards), a read of register 0 still returns
/// zero.
pub proof fn lemma_reg_zero_write(pre: CpuView, val: u64)
    requires
        pre.wf(),
    ensures
        pre.with_reg(0, val).regs[0] == 0u64,
{
}

} // verus!
