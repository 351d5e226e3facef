//! Branch-site descriptors and the linker-style table that holds them.
//!
//! One `JumpEntry` records one guarded branch: the address of the patchable
//! instruction, the jump target, and the owning key's address with a one-bit
//! tag for which branch is the likely one.  The three fields are emitted as
//! offsets relative to each field's own storage address and are resolved to
//! absolute addresses exactly once, before first use.

use vstd::prelude::*;

verus! {

/// Number of bytes one descriptor occupies in the table: three 8-byte words.
pub const JUMP_ENTRY_BYTES: usize = 24;

/// Wrap-around addition on addresses, the arithmetic used when a relative
/// offset is resolved against the address of the field that stores it.
pub open spec fn wrap_add(a: usize, b: usize) -> usize {
    vstd::wrapping::usize_specs::wrapping_add(a, b)
}

/// How the stored offsets are read during resolution.  The build target
/// fixes the choice: one linker (64-bit Windows) truncates the stored
/// offsets to 32 bits, every other target stores the native full width.
#[derive(Clone, Copy, PartialEq, Eq, Structural, Debug)]
pub enum OffsetWidth {
    /// Offsets are stored at the native word width.
    Native,
    /// Offsets were truncated to 32 bits during linking and must be
    /// sign-extended before the field address is added.
    Truncated32,
}

/// One record per guarded branch site.
///
/// Before resolution each field holds an offset relative to that field's own
/// storage address; after resolution each field holds an absolute address.
#[derive(Clone, Copy, PartialEq, Eq, Structural, Debug)]
pub struct JumpEntry {
    /// Address of the NOP/jump instruction to rewrite.
    pub code: usize,
    /// Address the jump variant must branch to.
    pub target: usize,
    /// Address of the owning key.  The least significant bit records whether
    /// the likely branch is the true branch; keys are at least 8-byte
    /// aligned, so the bit is free.
    pub key: usize,
}

impl JumpEntry {
    /// Address of the owning key, with the likely-branch tag bit cleared.
    pub open spec fn spec_key_addr(self) -> int {
        self.key - (self.key % 2)
    }

    /// Whether the likely branch is the true branch.
    pub open spec fn spec_likely_branch_is_true(self) -> bool {
        self.key % 2 == 1
    }

    /// A sentinel descriptor: ignored by all traversal logic.
    pub open spec fn spec_is_dummy(self) -> bool {
        self.code == 0
    }

    /// The descriptor with its offsets resolved to absolute addresses, given
    /// the address at which the descriptor itself is stored.
    pub open spec fn spec_resolved(self, entry_addr: usize) -> JumpEntry {
        JumpEntry {
            code: wrap_add(entry_addr, self.code),
            target: wrap_add((entry_addr + 8) as usize, self.target),
            key: wrap_add((entry_addr + 16) as usize, self.key),
        }
    }

    /// A 32-bit wide offset sign-extended to the native word, the form a
    /// linker that truncates the stored offsets to 32 bits hands over.
    pub open spec fn spec_sign_extended_low32(x: usize) -> usize {
        (((x as u32) as i32) as i64) as usize
    }

    /// As `spec_resolved`, but each offset is first sign-extended from its
    /// low 32 bits.
    pub open spec fn spec_resolved_truncated(self, entry_addr: usize) -> JumpEntry {
        JumpEntry {
            code: wrap_add(entry_addr, Self::spec_sign_extended_low32(self.code)),
            target: wrap_add((entry_addr + 8) as usize, Self::spec_sign_extended_low32(self.target)),
            key: wrap_add((entry_addr + 16) as usize, Self::spec_sign_extended_low32(self.key)),
        }
    }

    /// The descriptor resolved as the build target stores its offsets.
    pub open spec fn spec_resolved_for(self, width: OffsetWidth, entry_addr: usize) -> JumpEntry {
        match width {
            OffsetWidth::Native => self.spec_resolved(entry_addr),
            OffsetWidth::Truncated32 => self.spec_resolved_truncated(entry_addr),
        }
    }

    /// Build a descriptor from its three fields.
    pub fn new(code: usize, target: usize, key: usize) -> (r: Self)
        ensures
            r == (JumpEntry { code, target, key }),
    {
        JumpEntry { code, target, key }
    }

    /// Absolute address of the NOP/jump instruction to rewrite.
    pub fn code_addr(&self) -> (r: usize)
        ensures
            r == self.code,
    {
        self.code
    }

    /// Absolute address of the jump destination.
    pub fn target_addr(&self) -> (r: usize)
        ensures
            r == self.target,
    {
        self.target
    }

    /// Absolute address of the owning key, tag bit cleared.
    pub fn key_addr(&self) -> (r: usize)
        ensures
            r as int == self.spec_key_addr(),
    {
        self.key - self.key % 2
    }

    /// Whether the likely branch is the true branch.
    pub fn likely_branch_is_true(&self) -> (r: bool)
        ensures
            r == self.spec_likely_branch_is_true(),
    {
        self.key % 2 == 1
    }

    /// Whether this descriptor is the sentinel.
    pub fn is_dummy(&self) -> (r: bool)
        ensures
            r == self.spec_is_dummy(),
    {
        self.code == 0
    }

    /// Create a sentinel descriptor.
    pub fn dummy() -> (r: Self)
        ensures
            r.code == 0 && r.target == 0 && r.key == 0,
            r.spec_is_dummy(),
    {
        JumpEntry { code: 0, target: 0, key: 0 }
    }

    /// Resolve the three relative offsets to absolute addresses, given the
    /// address at which this descriptor is stored.
    pub fn make_relative_address_absolute(&mut self, entry_addr: usize)
        requires
            entry_addr + JUMP_ENTRY_BYTES <= usize::MAX,
        ensures
            *final(self) == old(self).spec_resolved(entry_addr),
    {
        self.code = entry_addr.wrapping_add(self.code);
        self.target = (entry_addr + 8).wrapping_add(self.target);
        self.key = (entry_addr + 16).wrapping_add(self.key);
    }

    /// Resolve offsets that a linker truncated to 32 bits during linking:
    /// sign-extend each stored offset from 32 bits, then add the field
    /// address, as `make_relative_address_absolute` does.
    pub fn make_relative_address_absolute_truncated(&mut self, entry_addr: usize)
        requires
            entry_addr + JUMP_ENTRY_BYTES <= usize::MAX,
        ensures
            *final(self) == old(self).spec_resolved_truncated(entry_addr),
    {
        let code: usize = ((self.code as u32) as i32) as i64 as usize;
        self.code = entry_addr.wrapping_add(code);
        let target: usize = ((self.target as u32) as i32) as i64 as usize;
        self.target = (entry_addr + 8).wrapping_add(target);
        let key: usize = ((self.key as u32) as i32) as i64 as usize;
        self.key = (entry_addr + 16).wrapping_add(key);
    }

    /// Resolve the offsets as the build target stores them.
    pub fn resolve(&mut self, width: OffsetWidth, entry_addr: usize)
        requires
            entry_addr + JUMP_ENTRY_BYTES <= usize::MAX,
        ensures
            *final(self) == old(self).spec_resolved_for(width, entry_addr),
    {
        match width {
            OffsetWidth::Native => self.make_relative_address_absolute(entry_addr),
            OffsetWidth::Truncated32 => self.make_relative_address_absolute_truncated(entry_addr),
        }
    }
}

/// Ordering used to sort the table: by owning-key address, then by code
/// address.
pub open spec fn entry_le(a: JumpEntry, b: JumpEntry) -> bool {
    ||| a.spec_key_addr() < b.spec_key_addr()
    ||| (a.spec_key_addr() == b.spec_key_addr() && a.code <= b.code)
}

/// The whole sequence is ordered by `entry_le`.
pub open spec fn entries_sorted(s: Seq<JumpEntry>) -> bool {
    forall|i: int, j: int| 0 <= i < j < s.len() ==> entry_le(s[i], s[j])
}

/// Executable comparison matching `entry_le`.
pub fn entry_le_exec(a: &JumpEntry, b: &JumpEntry) -> (r: bool)
    ensures
        r == entry_le(*a, *b),
{
    let ka = a.key_addr();
    let kb = b.key_addr();
    ka < kb || (ka == kb && a.code_addr() <= b.code_addr())
}

/// The descriptor array, together with the address at which its first
/// descriptor is stored.  Models the dedicated linker section bracketed by
/// its start and stop symbols.
pub struct JumpEntryTable {
    /// Address of the first descriptor.
    pub start: usize,
    /// The descriptors, in table order.
    pub entries: Vec<JumpEntry>,
}

impl JumpEntryTable {
    /// The table occupies real, representable addresses.
    pub open spec fn wf(self) -> bool {
        &&& 0 < self.start
        &&& self.start + JUMP_ENTRY_BYTES * self.entries@.len() <= usize::MAX
    }

    /// Address at which descriptor `i` is stored.
    pub open spec fn spec_entry_addr(self, i: int) -> int {
        self.start + JUMP_ENTRY_BYTES * i
    }

    /// One-past-the-end address of the table.
    pub open spec fn spec_stop(self) -> int {
        self.start + JUMP_ENTRY_BYTES * self.entries@.len()
    }

    /// Build a table from the address of its first descriptor and its
    /// contents.
    pub fn new(start: usize, entries: Vec<JumpEntry>) -> (r: Self)
        requires
            0 < start,
            start + JUMP_ENTRY_BYTES * entries@.len() <= usize::MAX,
        ensures
            r.start == start,
            r.entries == entries,
            r.wf(),
    {
        JumpEntryTable { start, entries }
    }

    /// Number of descriptors.
    pub fn len(&self) -> (r: usize)
        ensures
            r == self.entries@.len(),
    {
        self.entries.len()
    }

    /// Address at which descriptor `i` is stored.
    pub fn entry_addr(&self, i: usize) -> (r: usize)
        requires
            self.wf(),
            i < self.entries@.len(),
        ensures
            r as int == self.spec_entry_addr(i as int),
    {
        proof {
            assert(JUMP_ENTRY_BYTES * i as int <= JUMP_ENTRY_BYTES * self.entries@.len())
                by (nonlinear_arith)
                requires
                    i as int <= self.entries@.len(),
            ;
        }
        self.start + JUMP_ENTRY_BYTES * i
    }

    /// One-past-the-end address of the table, the address the stop symbol
    /// resolves to.
    pub fn stop_addr(&self) -> (r: usize)
        requires
            self.wf(),
        ensures
            r as int == self.spec_stop(),
    {
        self.start + JUMP_ENTRY_BYTES * self.entries.len()
    }
}

/// The descriptors with every non-sentinel entry resolved to absolute
/// addresses at the position it occupies in `t`.
pub open spec fn spec_resolved_table(t: JumpEntryTable, width: OffsetWidth) -> Seq<JumpEntry> {
    Seq::new(
        t.entries@.len(),
        |i: int|
            if t.entries@[i].spec_is_dummy() {
                t.entries@[i]
            } else {
                t.entries@[i].spec_resolved_for(width, (t.start + JUMP_ENTRY_BYTES * i) as usize)
            },
    )
}

} // verus!
