//! Patcher for environments without memory protection: code memory is
//! directly writable, so a patch is a plain byte copy into the code region
//! the manipulator owns.  The embedding environment guarantees nothing
//! races the patch.

use vstd::prelude::*;

verus! {

use crate::arch::Arch;
use crate::arch::arch_ins_len;
use crate::arch::ins_len;
use crate::arch::jump_displacement_ok;
use crate::arch::spec_branch_value;
use crate::JumpLabelType;
use crate::code_manipulate::CodeManipulator;
use crate::code_manipulate::SyncCodeManipulator;
use crate::code_manipulate::write_bytes;
use crate::code_manipulate::mem_has_bytes;
use crate::jump_entry::JumpEntry;

/// A code manipulator that writes straight into the code region it owns.
///
/// The region is a byte buffer standing at `base`: address `base + i` holds
/// byte `i` of the buffer.
pub struct ArchCodeManipulator {
    /// Address of the first byte of the owned code region.
    pub base: usize,
    /// The bytes of the code region.
    pub code: Vec<u8>,
}

impl ArchCodeManipulator {
    /// Take ownership of a code region standing at `base`.
    pub fn new(base: usize, code: Vec<u8>) -> (r: Self)
        ensures
            r.base == base,
            r.code == code,
    {
        ArchCodeManipulator { base, code }
    }

    /// Read one byte of the code region.
    pub fn read_byte(&self, addr: usize) -> (r: u8)
        requires
            self.base <= addr,
            addr - self.base < self.code@.len(),
        ensures
            r == self.code_mem()[addr as int],
    {
        self.code[addr - self.base]
    }

    /// Evaluate the guarded branch recorded by `jump_entry`, as executing
    /// the patched instruction would: fall through to the likely branch on
    /// the NOP, divert to the unlikely branch on the jump.
    pub fn evaluate_branch(&self, jump_entry: &JumpEntry, arch: Arch) -> (r: bool)
        requires
            jump_displacement_ok(arch, jump_entry.code, jump_entry.target),
            self.base <= jump_entry.code,
            jump_entry.code + arch_ins_len(arch) <= self.base + self.code@.len(),
            self.base + self.code@.len() <= usize::MAX as int + 1,
        ensures
            r == spec_branch_value(self.code_mem(), *jump_entry, arch),
    {
        let jump = crate::arch::arch_jump_entry_instruction(arch, JumpLabelType::Jmp, jump_entry);
        let n = ins_len(arch);
        let code = jump_entry.code_addr();
        let mut k: usize = 0;
        let mut is_jump = true;
        while k < n
            invariant
                k <= n,
                n == jump@.len(),
                n as int == arch_ins_len(arch),
                code == jump_entry.code,
                self.base <= code,
                code + n <= self.base + self.code@.len(),
                self.base + self.code@.len() <= usize::MAX as int + 1,
                is_jump == (forall|j: int|
                    0 <= j < k ==> self.code_mem()[code + j] == jump@[j]),
            decreases n - k,
        {
            let b = self.read_byte(code + k);
            if b != jump[k] {
                is_jump = false;
            }
            k += 1;
        }
        let likely = jump_entry.likely_branch_is_true();
        proof {
            if is_jump {
                assert forall|a: int|
                    code <= a < code + jump@.len() implies #[trigger] self.code_mem().dom().contains(
                    a,
                ) && self.code_mem()[a] == jump@[a - code] by {
                    assert(self.code_mem()[code + (a - code)] == jump@[a - code]);
                }
                assert(mem_has_bytes(self.code_mem(), code as int, jump@));
            } else {
                if mem_has_bytes(self.code_mem(), code as int, jump@) {
                    assert forall|j: int|
                        0 <= j < n implies self.code_mem()[code + j] == jump@[j] by {
                        assert(self.code_mem().dom().contains(code + j));
                    }
                    assert(false);
                }
            }
        }
        if is_jump {
            !likely
        } else {
            likely
        }
    }
}

impl CodeManipulator for ArchCodeManipulator {
    open spec fn code_mem(&self) -> Map<int, u8> {
        Map::new(
            |a: int| self.base <= a < self.base + self.code@.len(),
            |a: int| self.code@[a - self.base],
        )
    }

    open spec fn can_write(&self, addr: int, len: int) -> bool {
        self.base <= addr && addr + len <= self.base + self.code@.len()
    }

    fn write_code(&mut self, addr: usize, data: &Vec<u8>) {
        let offset: usize = addr - self.base;
        let n = self.code.len();
        let mut k: usize = 0;
        while k < data.len()
            invariant
                k <= data@.len(),
                self.base == old(self).base,
                self.code@.len() == old(self).code@.len(),
                n == self.code@.len(),
                offset == addr - self.base,
                offset + data@.len() <= self.code@.len(),
                forall|j: int| 0 <= j < k ==> self.code@[offset + j] == data@[j],
                forall|j: int|
                    0 <= j < self.code@.len() && !(offset <= j < offset + k) ==> self.code@[j]
                        == old(self).code@[j],
            decreases data@.len() - k,
        {
            self.code[offset + k] = data[k];
            k += 1;
        }
        proof {
            assert(self.code_mem() =~= write_bytes(old(self).code_mem(), addr as int, data@));
        }
    }
}

impl SyncCodeManipulator for ArchCodeManipulator {
    fn write_code_sync(&mut self, addr: usize, data: &Vec<u8>) {
        let word_base: usize = addr - addr % 8;
        let offset: usize = word_base - self.base;
        let n = self.code.len();
        let mut current: Vec<u8> = Vec::new();
        let mut k: usize = 0;
        while k < 8
            invariant
                k <= 8,
                self.base <= word_base,
                word_base + 8 <= self.base + self.code@.len(),
                n == self.code@.len(),
                offset == word_base - self.base,
                current@.len() == k,
                forall|j: int| 0 <= j < k ==> current@[j] == self.code@[offset + j],
            decreases 8 - k,
        {
            current.push(self.code[offset + k]);
            k += 1;
        }
        let spliced = crate::arch::x86_64::arch_atomic_splice_word(&current, data, addr % 8);
        let ghost pre = *self;
        self.write_code(word_base, &spliced);
        proof {
            assert(self.code_mem() =~= write_bytes(pre.code_mem(), addr as int, data@));
        }
    }
}

} // verus!
