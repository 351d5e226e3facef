//! Jump-label style static keys: boolean feature flags that gate branch
//! sites by rewriting a fixed-length NOP or unconditional-jump instruction
//! in place, instead of reading a variable at every evaluation.
//!
//! The crate models the machinery over plain values: a table of branch-site
//! descriptors (`JumpEntry`), the keys that own them (`GenericStaticKey`),
//! the one-time initialization that resolves and sorts the table, and the
//! enable/disable traversal that re-encodes every site of one key through a
//! `CodeManipulator`.

use vstd::prelude::*;

pub mod arch;
pub mod code_manipulate;
pub mod jump_entry;
pub mod os;
pub mod sort;

verus! {

use crate::arch::Arch;
use crate::arch::arch_ins_len;
use crate::arch::jump_displacement_ok;
use crate::arch::spec_instruction;
use crate::arch::spec_jump_label_type;
use crate::arch::spec_branch_value;
use crate::code_manipulate::CodeManipulator;
use crate::code_manipulate::mem_has_bytes;
use crate::code_manipulate::write_bytes;
use crate::jump_entry::JumpEntry;
use crate::jump_entry::JumpEntryTable;
use crate::jump_entry::JUMP_ENTRY_BYTES;
use crate::jump_entry::OffsetWidth;
use crate::jump_entry::entries_sorted;
use crate::jump_entry::entry_le;
use crate::jump_entry::spec_resolved_table;
use crate::sort::sort_jump_entries;
use crate::sort::sort_key_matches;

/// Type of the instruction a branch site holds.
#[derive(Clone, Copy, PartialEq, Eq, Structural, Debug)]
pub enum JumpLabelType {
    /// Fixed-length no-op: execution falls through to the likely branch.
    Nop,
    /// Unconditional jump to the unlikely branch.
    Jmp,
}

/// One static key: the current boolean state of one feature flag, and
/// where its branch-site descriptors begin in the sorted table.
#[derive(Clone, Copy, PartialEq, Eq, Structural, Debug)]
pub struct GenericStaticKey {
    /// Whether the key is currently true.  Mutated only by the update
    /// traversal.
    pub enabled: bool,
    /// Address of the first descriptor owned by this key, assigned once by
    /// `global_init`; 0 before that, and forever for a key that no branch
    /// references.
    pub entries: usize,
    /// The build-time initial value.  It picks the initial NOP/jump layout
    /// of the key's sites and is irrelevant afterwards.
    pub initial: bool,
}

/// A static key whose sites are patched by the build's code manipulator.
pub type StaticKey = GenericStaticKey;

/// A `StaticKey` with initial status `true`.
pub type StaticTrueKey = StaticKey;

/// A `StaticKey` with initial status `false`.
pub type StaticFalseKey = StaticKey;

impl GenericStaticKey {
    /// Whether the initial status is `true`.
    pub fn initial_enabled(&self) -> (r: bool)
        ensures
            r == self.initial,
    {
        self.initial
    }

    /// Create a new static key with the given initial value.
    pub fn new(enabled: bool) -> (r: Self)
        ensures
            r.enabled == enabled,
            r.entries == 0,
            r.initial == enabled,
    {
        GenericStaticKey { enabled, entries: 0, initial: enabled }
    }

    /// Address of the first descriptor owned by this key; 0 when there is
    /// none.
    pub fn entries(&self) -> (r: usize)
        ensures
            r == self.entries,
    {
        self.entries
    }
}

impl GenericStaticKey {
    /// Enable this static key (make the value `true`).  Does nothing if
    /// the key is already enabled.
    ///
    /// `self_addr` is the address this key stands at, the address its
    /// descriptors name in their key field.  The caller must have run
    /// `global_init` first and must be the only thread patching.
    pub fn enable<M: CodeManipulator>(
        &mut self,
        self_addr: usize,
        table: &JumpEntryTable,
        arch: Arch,
        m: &mut M,
    )
        requires
            static_key_update_pre(*old(self), self_addr, *table, arch, *old(m), true),
        ensures
            static_key_update_post(
                *old(self),
                *final(self),
                *old(m),
                *final(m),
                self_addr,
                *table,
                arch,
                true,
            ),
    {
        static_key_update(self, self_addr, table, arch, m, true)
    }

    /// Disable this static key (make the value `false`).  Does nothing if
    /// the key is already disabled.
    ///
    /// `self_addr` is the address this key stands at, the address its
    /// descriptors name in their key field.  The caller must have run
    /// `global_init` first and must be the only thread patching.
    pub fn disable<M: CodeManipulator>(
        &mut self,
        self_addr: usize,
        table: &JumpEntryTable,
        arch: Arch,
        m: &mut M,
    )
        requires
            static_key_update_pre(*old(self), self_addr, *table, arch, *old(m), false),
        ensures
            static_key_update_post(
                *old(self),
                *final(self),
                *old(m),
                *final(m),
                self_addr,
                *table,
                arch,
                false,
            ),
    {
        static_key_update(self, self_addr, table, arch, m, false)
    }
}

/// Create a new static key with `false` as initial value.
pub fn new_static_false_key() -> (r: StaticFalseKey)
    ensures
        r.enabled == false,
        r.entries == 0,
        r.initial == false,
{
    GenericStaticKey::new(false)
}

/// Create a new static key with `true` as initial value.
pub fn new_static_true_key() -> (r: StaticTrueKey)
    ensures
        r.enabled == true,
        r.entries == 0,
        r.initial == true,
{
    GenericStaticKey::new(true)
}

/// Count of descriptors in the table, sentinels included, computed from
/// the distance between the table's two bounding addresses.
pub fn jump_entries_count(table: &JumpEntryTable) -> (r: usize)
    requires
        table.wf(),
    ensures
        r == table.entries@.len(),
{
    proof {
        assert(JUMP_ENTRY_BYTES as int * table.entries@.len() as int / JUMP_ENTRY_BYTES as int
            == table.entries@.len() as int)
            by (nonlinear_arith)
        ;
    }
    (table.stop_addr() - table.start) / JUMP_ENTRY_BYTES
}

/// A static key together with the address it stands at.  Descriptors refer
/// to their key by address; the registry is the address-keyed lookup that
/// resolves the reference.
#[derive(Clone, Copy, PartialEq, Eq, Structural, Debug)]
pub struct KeySlot {
    /// Address of the key: nonzero and 8-byte aligned, so the low bit of a
    /// descriptor's key field is free for the likely-branch tag.
    pub addr: usize,
    /// The key itself.
    pub key: GenericStaticKey,
}

/// All static keys of the process, keyed by address.
pub struct KeyRegistry {
    /// The keys and their addresses.
    pub slots: Vec<KeySlot>,
}

impl KeyRegistry {
    /// Addresses are distinct, nonzero and 8-byte aligned.
    pub open spec fn wf(self) -> bool {
        &&& forall|i: int, j: int|
            0 <= i < j < self.slots@.len() ==> #[trigger] self.slots@[i].addr != #[trigger] self.slots@[j].addr
        &&& forall|i: int|
            0 <= i < self.slots@.len() ==> (#[trigger] self.slots@[i]).addr != 0 && self.slots@[i].addr % 8
                == 0
    }

    /// Whether some key stands at `addr`.
    pub open spec fn spec_has(self, addr: int) -> bool {
        exists|i: int| 0 <= i < self.slots@.len() && (#[trigger] self.slots@[i]).addr == addr
    }

    /// An empty registry.
    pub fn new() -> (r: Self)
        ensures
            r.slots@.len() == 0,
            r.wf(),
    {
        KeyRegistry { slots: Vec::new() }
    }

    /// Record that `key` stands at `addr`.
    pub fn register(&mut self, addr: usize, key: GenericStaticKey)
        requires
            old(self).wf(),
            addr != 0,
            addr % 8 == 0,
            !old(self).spec_has(addr as int),
        ensures
            final(self).slots@ == old(self).slots@.push(KeySlot { addr, key }),
            final(self).wf(),
    {
        self.slots.push(KeySlot { addr, key });
        proof {
            assert forall|i: int, j: int|
                0 <= i < j < self.slots@.len() implies #[trigger] self.slots@[i].addr
                != #[trigger] self.slots@[j].addr by {
                if j == self.slots@.len() - 1 {
                    assert(old(self).slots@[i].addr != addr);
                }
            }
        }
    }

    /// Look up the key standing at `addr`.
    pub fn get(&self, addr: usize) -> (r: Option<GenericStaticKey>)
        ensures
            match r {
                Some(k) => exists|i: int|
                    0 <= i < self.slots@.len() && (#[trigger] self.slots@[i]).addr == addr
                        && self.slots@[i].key == k,
                None => !self.spec_has(addr as int),
            },
    {
        let n = self.slots.len();
        let mut i: usize = 0;
        while i < n
            invariant
                i <= n,
                n == self.slots@.len(),
                forall|j: int| 0 <= j < i ==> (#[trigger] self.slots@[j]).addr != addr,
            decreases n - i,
        {
            if self.slots[i].addr == addr {
                return Some(self.slots[i].key);
            }
            i += 1;
        }
        None
    }

    /// Set the descriptor start address of the key standing at `addr`; a
    /// no-op when no key stands there.
    pub fn set_entries(&mut self, addr: usize, entries_addr: usize)
        ensures
            final(self).slots@.len() == old(self).slots@.len(),
            forall|i: int|
                0 <= i < old(self).slots@.len() && (#[trigger] old(self).slots@[i]).addr == addr
                    ==> final(self).slots@[i] == (KeySlot {
                    addr,
                    key: GenericStaticKey {
                        enabled: old(self).slots@[i].key.enabled,
                        entries: entries_addr,
                        initial: old(self).slots@[i].key.initial,
                    },
                }),
            forall|i: int|
                0 <= i < old(self).slots@.len() && (#[trigger] old(self).slots@[i]).addr != addr
                    ==> final(self).slots@[i] == old(self).slots@[i],
    {
        let n = self.slots.len();
        let mut i: usize = 0;
        while i < n
            invariant
                i <= n,
                n == self.slots@.len(),
                self.slots@.len() == old(self).slots@.len(),
                forall|j: int|
                    0 <= j < i && (#[trigger] old(self).slots@[j]).addr == addr ==> self.slots@[j]
                        == (KeySlot {
                        addr,
                        key: GenericStaticKey {
                            enabled: old(self).slots@[j].key.enabled,
                            entries: entries_addr,
                            initial: old(self).slots@[j].key.initial,
                        },
                    }),
                forall|j: int|
                    (0 <= j < self.slots@.len() && !(0 <= j < i && old(self).slots@[j].addr == addr))
                        ==> #[trigger] self.slots@[j] == old(self).slots@[j],
            decreases n - i,
        {
            if self.slots[i].addr == addr {
                let slot = self.slots[i];
                self.slots[i] = KeySlot {
                    addr,
                    key: GenericStaticKey {
                        enabled: slot.key.enabled,
                        entries: entries_addr,
                        initial: slot.key.initial,
                    },
                };
            }
            i += 1;
        }
    }
}

/// Progress of the one-time global initialization, the tri-state flag the
/// initialization protocol advances with atomic transitions.
#[derive(Clone, Copy, PartialEq, Eq, Structural, Debug)]
pub enum InitState {
    /// Nobody has started initializing.
    Uninitialized,
    /// Exactly one caller is resolving and sorting the table.
    Initializing,
    /// The table is resolved, sorted and linked to its keys.
    Initialized,
}

// ---------------------------- Update ----------------------------
/// The build-layout invariants the patching engine trusts: every real
/// descriptor names a real key and an in-range, reachable instruction, the
/// sentinels name no key, and no two sites overlap.
pub open spec fn table_patchable(table: JumpEntryTable, arch: Arch) -> bool {
    let s = table.entries@;
    &&& forall|i: int|
        0 <= i < s.len() && !(#[trigger] s[i]).spec_is_dummy() ==> {
            &&& s[i].spec_key_addr() != 0
            &&& s[i].code + arch_ins_len(arch) <= usize::MAX as int + 1
            &&& jump_displacement_ok(arch, s[i].code, s[i].target)
        }
    &&& forall|i: int|
        0 <= i < s.len() && (#[trigger] s[i]).spec_is_dummy() ==> s[i].spec_key_addr() == 0
    &&& forall|i: int, j: int|
        #![trigger s[i], s[j]]
        0 <= i < s.len() && 0 <= j < s.len() && i != j && !s[i].spec_is_dummy()
            && !s[j].spec_is_dummy() ==> s[i].code + arch_ins_len(arch) <= s[j].code || s[j].code
            + arch_ins_len(arch) <= s[i].code
}

/// The manipulator may patch every real site of the table.
pub open spec fn can_write_all_sites<M: CodeManipulator>(
    m: M,
    table: JumpEntryTable,
    arch: Arch,
) -> bool {
    forall|i: int|
        0 <= i < table.entries@.len() && !(#[trigger] table.entries@[i]).spec_is_dummy()
            ==> m.can_write(table.entries@[i].code as int, arch_ins_len(arch))
}

/// Some real descriptor is owned by the key at `key_addr`.
pub open spec fn has_entry_for(s: Seq<JumpEntry>, key_addr: int) -> bool {
    exists|i: int|
        0 <= i < s.len() && !(#[trigger] s[i]).spec_is_dummy() && s[i].spec_key_addr() == key_addr
}

/// Descriptor `i` is the first real descriptor owned by the key at
/// `key_addr`.
pub open spec fn is_first_entry_for(s: Seq<JumpEntry>, key_addr: int, i: int) -> bool {
    &&& 0 <= i < s.len()
    &&& !s[i].spec_is_dummy()
    &&& s[i].spec_key_addr() == key_addr
    &&& forall|j: int|
        0 <= j < i && !(#[trigger] s[j]).spec_is_dummy() ==> s[j].spec_key_addr() != key_addr
}

/// The key's descriptor start address is what initialization establishes:
/// the address of its first descriptor, or 0 when no branch references the
/// key.
pub open spec fn key_linked(table: JumpEntryTable, key_addr: int, entries_val: usize) -> bool {
    if has_entry_for(table.entries@, key_addr) {
        exists|i: int|
            #![trigger table.spec_entry_addr(i)]
            is_first_entry_for(table.entries@, key_addr, i) && entries_val
                == table.spec_entry_addr(i)
    } else {
        entries_val == 0
    }
}

/// Address `a` lies in some site owned by the key at `key_addr`.
pub open spec fn addr_in_key_sites(
    table: JumpEntryTable,
    key_addr: int,
    arch: Arch,
    a: int,
) -> bool {
    exists|i: int|
        0 <= i < table.entries@.len() && !(#[trigger] table.entries@[i]).spec_is_dummy()
            && table.entries@[i].spec_key_addr() == key_addr && table.entries@[i].code <= a
            < table.entries@[i].code + arch_ins_len(arch)
}

/// What an update traversal demands: a well-formed, sorted, patchable
/// table, a real key address, the key linked as initialization left it,
/// and a manipulator that may patch every site.
pub open spec fn static_key_update_pre<M: CodeManipulator>(
    key: GenericStaticKey,
    key_addr: usize,
    table: JumpEntryTable,
    arch: Arch,
    m: M,
    enabled: bool,
) -> bool {
    &&& table.wf()
    &&& entries_sorted(table.entries@)
    &&& table_patchable(table, arch)
    &&& key_addr != 0
    &&& key_linked(table, key_addr as int, key.entries)
    &&& can_write_all_sites(m, table, arch)
}

/// Every site of the key holds the fresh encoding for `enabled`, and no
/// byte outside the key's sites moved.
pub open spec fn key_sites_updated<M: CodeManipulator>(
    m0: M,
    m1: M,
    table: JumpEntryTable,
    key_addr: int,
    arch: Arch,
    enabled: bool,
) -> bool {
    &&& forall|i: int|
        0 <= i < table.entries@.len() && !(#[trigger] table.entries@[i]).spec_is_dummy()
            && table.entries@[i].spec_key_addr() == key_addr ==> mem_has_bytes(
            m1.code_mem(),
            table.entries@[i].code as int,
            spec_instruction(
                arch,
                spec_jump_label_type(enabled, table.entries@[i]),
                table.entries@[i],
            ),
        )
    &&& forall|a: int|
        !addr_in_key_sites(table, key_addr, arch, a) ==> (#[trigger] m1.code_mem().dom().contains(a)
            <==> m0.code_mem().dom().contains(a)) && (m0.code_mem().dom().contains(a)
            ==> m1.code_mem()[a] == m0.code_mem()[a])
}

/// What an update traversal achieves.  A redundant toggle leaves the code
/// image untouched; a real toggle re-encodes exactly the key's sites.
pub open spec fn static_key_update_post<M: CodeManipulator>(
    key0: GenericStaticKey,
    key1: GenericStaticKey,
    m0: M,
    m1: M,
    key_addr: usize,
    table: JumpEntryTable,
    arch: Arch,
    enabled: bool,
) -> bool {
    &&& key1.enabled == enabled
    &&& key1.entries == key0.entries
    &&& key1.initial == key0.initial
    &&& (key0.enabled == enabled ==> m1.code_mem() == m0.code_mem())
    &&& (key0.enabled != enabled ==> key_sites_updated(m0, m1, table, key_addr as int, arch, enabled))
    &&& forall|a: int, l: int| #[trigger] m1.can_write(a, l) <==> m0.can_write(a, l)
}

/// Update the instruction recorded in a single jump entry: pick NOP or
/// jump from the requested state and the site's likely-branch tag, encode
/// it, and write it over the site.
pub fn jump_entry_update<M: CodeManipulator>(
    jump_entry: &JumpEntry,
    enabled: bool,
    arch: Arch,
    m: &mut M,
)
    requires
        jump_displacement_ok(arch, jump_entry.code, jump_entry.target),
        old(m).can_write(jump_entry.code as int, arch_ins_len(arch)),
    ensures
        final(m).code_mem() == write_bytes(
            old(m).code_mem(),
            jump_entry.code as int,
            spec_instruction(arch, spec_jump_label_type(enabled, *jump_entry), *jump_entry),
        ),
        forall|a: int, l: int| #[trigger] final(m).can_write(a, l) <==> old(m).can_write(a, l),
{
    let jump_label_type = if enabled ^ jump_entry.likely_branch_is_true() {
        JumpLabelType::Jmp
    } else {
        JumpLabelType::Nop
    };
    let code_bytes = crate::arch::arch_jump_entry_instruction(arch, jump_label_type, jump_entry);
    m.write_code(jump_entry.code_addr(), &code_bytes);
}

/// Address `a` lies in the site of some descriptor with index in
/// `[lo, hi)`.
spec fn addr_in_index_range_sites(
    table: JumpEntryTable,
    arch: Arch,
    lo: int,
    hi: int,
    a: int,
) -> bool {
    exists|j: int|
        lo <= j < hi && 0 <= j < table.entries@.len() && (#[trigger] table.entries@[j]).code <= a
            < table.entries@[j].code + arch_ins_len(arch)
}

/// Whether descriptor `i` is owned by the key at `key_addr`.
fn entry_key_matches(table: &JumpEntryTable, i: usize, key_addr: usize) -> (r: bool)
    requires
        i < table.entries@.len(),
    ensures
        r == (table.entries@[i as int].spec_key_addr() == key_addr),
{
    table.entries[i].key_addr() == key_addr
}

/// The update traversal behind `enable` and `disable`: a no-op when the
/// key already has the requested state, otherwise set the state and
/// rewrite the instruction at every site of this key, walking the sorted
/// table from the key's first descriptor until the owning key changes.
pub fn static_key_update<M: CodeManipulator>(
    key: &mut GenericStaticKey,
    key_addr: usize,
    table: &JumpEntryTable,
    arch: Arch,
    m: &mut M,
    enabled: bool,
)
    requires
        static_key_update_pre(*old(key), key_addr, *table, arch, *old(m), enabled),
    ensures
        static_key_update_post(
            *old(key),
            *final(key),
            *old(m),
            *final(m),
            key_addr,
            *table,
            arch,
            enabled,
        ),
{
    let ghost s = table.entries@;
    if key.enabled == enabled {
        return ;
    }
    key.enabled = enabled;
    if key.entries == 0 {
        // This static key is never used by any branch site.
        proof {
            if has_entry_for(s, key_addr as int) {
                let i = choose|i: int|
                    #![trigger table.spec_entry_addr(i)]
                    is_first_entry_for(s, key_addr as int, i) && old(key).entries
                        == table.spec_entry_addr(i);
                assert(table.spec_entry_addr(i) > 0) by {
                    assert(JUMP_ENTRY_BYTES * i >= 0) by (nonlinear_arith)
                        requires
                            i >= 0,
                    ;
                }
            }
        }
        return ;
    }
    proof {
        if !has_entry_for(s, key_addr as int) {
            assert(old(key).entries == 0);
        }
    }
    let ghost first = choose|i: int|
        #![trigger table.spec_entry_addr(i)]
        is_first_entry_for(s, key_addr as int, i) && old(key).entries == table.spec_entry_addr(i);
    let idx: usize = (key.entries - table.start) / JUMP_ENTRY_BYTES;
    proof {
        assert(key.entries as int - table.start as int == JUMP_ENTRY_BYTES * first);
        assert(JUMP_ENTRY_BYTES as int * first / JUMP_ENTRY_BYTES as int == first)
            by (nonlinear_arith)
        ;
        assert(idx as int == first);
    }
    let n = table.len();
    let mut i: usize = idx;
    while i < n && entry_key_matches(table, i, key_addr)
        invariant
            static_key_update_pre(*old(key), key_addr, *table, arch, *old(m), enabled),
            s == table.entries@,
            n == s.len(),
            is_first_entry_for(s, key_addr as int, idx as int),
            idx <= i <= n,
            forall|j: int|
                idx <= j < i ==> !(#[trigger] s[j]).spec_is_dummy() && s[j].spec_key_addr()
                    == key_addr,
            forall|j: int|
                idx <= j < i ==> mem_has_bytes(
                    m.code_mem(),
                    (#[trigger] s[j]).code as int,
                    spec_instruction(arch, spec_jump_label_type(enabled, s[j]), s[j]),
                ),
            forall|a: int|
                !addr_in_index_range_sites(*table, arch, idx as int, i as int, a) ==> (
                #[trigger] m.code_mem().dom().contains(a) <==> old(m).code_mem().dom().contains(a))
                    && (old(m).code_mem().dom().contains(a) ==> m.code_mem()[a] == old(
                    m,
                ).code_mem()[a]),
            forall|a: int, l: int| #[trigger] m.can_write(a, l) <==> old(m).can_write(a, l),
            *key == (GenericStaticKey {
                enabled,
                entries: old(key).entries,
                initial: old(key).initial,
            }),
        decreases n - i,
    {
        let jump_entry = table.entries[i];
        proof {
            assert(!s[i as int].spec_is_dummy());
        }
        let ghost m_before = *m;
        jump_entry_update(&jump_entry, enabled, arch, m);
        proof {
            let e = s[i as int];
            let ins = spec_instruction(arch, spec_jump_label_type(enabled, e), e);
            crate::arch::lemma_instruction_len(arch, spec_jump_label_type(enabled, e), e);
            crate::code_manipulate::lemma_write_bytes_effect(m_before.code_mem(), e.code as int, ins);
            assert forall|j: int|
                idx <= j < i + 1 implies mem_has_bytes(
                m.code_mem(),
                (#[trigger] s[j]).code as int,
                spec_instruction(arch, spec_jump_label_type(enabled, s[j]), s[j]),
            ) by {
                if j < i {
                    let ins_j = spec_instruction(arch, spec_jump_label_type(enabled, s[j]), s[j]);
                    crate::arch::lemma_instruction_len(arch, spec_jump_label_type(enabled, s[j]), s[j]);
                    crate::code_manipulate::lemma_mem_has_bytes_agree(
                        m_before.code_mem(),
                        m.code_mem(),
                        s[j].code as int,
                        ins_j,
                    );
                }
            }
            assert forall|a: int|
                !addr_in_index_range_sites(*table, arch, idx as int, i + 1, a) implies (
            #[trigger] m.code_mem().dom().contains(a) <==> old(m).code_mem().dom().contains(a)) && (
            old(m).code_mem().dom().contains(a) ==> m.code_mem()[a] == old(m).code_mem()[a]) by {
                if addr_in_index_range_sites(*table, arch, idx as int, i as int, a) {
                    let j = choose|j: int|
                        idx <= j < i && 0 <= j < table.entries@.len() && (
                        #[trigger] table.entries@[j]).code <= a < table.entries@[j].code
                            + arch_ins_len(arch);
                    assert(idx <= j < i + 1 && table.entries@[j].code <= a < table.entries@[j].code
                        + arch_ins_len(arch));
                    assert(false);
                }
                if e.code <= a < e.code + arch_ins_len(arch) {
                    assert(idx <= i < i + 1 && (table.entries@[i as int]).code <= a
                        < table.entries@[i as int].code + arch_ins_len(arch));
                    assert(false);
                }
                assert(!(e.code <= a < e.code + ins.len()));
            }
        }
        i += 1;
    }
    proof {
        assert forall|j: int|
            0 <= j < s.len() && !(#[trigger] s[j]).spec_is_dummy() && s[j].spec_key_addr()
                == key_addr implies idx <= j < i by {
            if j < idx {
                assert(s[j].spec_key_addr() != key_addr);
            }
            if j >= i as int {
                if i < n {
                    assert(i > idx) by {
                        assert(s[idx as int].spec_key_addr() == key_addr);
                    }
                    assert(entry_le(s[idx as int], s[i as int]));
                    if j > i {
                        assert(entry_le(s[i as int], s[j]));
                    }
                    assert(false);
                }
            }
        }
        assert forall|a: int| !addr_in_key_sites(*table, key_addr as int, arch, a) implies (
        #[trigger] m.code_mem().dom().contains(a) <==> old(m).code_mem().dom().contains(a)) && (old(
            m,
        ).code_mem().dom().contains(a) ==> m.code_mem()[a] == old(m).code_mem()[a]) by {
            if addr_in_index_range_sites(*table, arch, idx as int, i as int, a) {
                let j = choose|j: int|
                    idx <= j < i && 0 <= j < table.entries@.len() && (
                    #[trigger] table.entries@[j]).code <= a < table.entries@[j].code + arch_ins_len(
                        arch,
                    );
                assert(0 <= j < s.len() && !s[j].spec_is_dummy() && s[j].spec_key_addr()
                    == key_addr && table.entries@[j].code <= a < table.entries@[j].code
                    + arch_ins_len(arch));
                assert(false);
            }
            // name the domain point so the walk's frame fact applies to it
            let a_in_dom = m.code_mem().dom().contains(a);
            assert(!addr_in_index_range_sites(*table, arch, idx as int, i as int, a));
        }
    }
}

// ---------------------------- Create ----------------------------
/// What global initialization establishes: the table holds exactly the
/// resolved descriptors, sorted stably (descriptors tied in both key
/// address and code address keep their table order); every key a branch
/// references is linked to its first descriptor with its state untouched;
/// every other key is untouched entirely.
pub open spec fn global_init_inner_post(
    t0: JumpEntryTable,
    t1: JumpEntryTable,
    r0: KeyRegistry,
    r1: KeyRegistry,
    width: OffsetWidth,
) -> bool {
    &&& t1.start == t0.start
    &&& t1.entries@.len() == t0.entries@.len()
    &&& entries_sorted(t1.entries@)
    &&& t1.entries@.to_multiset() == spec_resolved_table(t0, width).to_multiset()
    &&& forall|x: JumpEntry| #[trigger] t1.entries@.filter(sort_key_matches(x))
        == spec_resolved_table(t0, width).filter(sort_key_matches(x))
    &&& r1.slots@.len() == r0.slots@.len()
    &&& forall|k: int|
        0 <= k < r0.slots@.len() ==> (#[trigger] r1.slots@[k]).addr == r0.slots@[k].addr
    &&& forall|k: int|
        #![trigger r1.slots@[k]]
        0 <= k < r0.slots@.len() ==> {
            if has_entry_for(t1.entries@, r0.slots@[k].addr as int) {
                &&& r1.slots@[k].key.enabled == r0.slots@[k].key.enabled
                &&& r1.slots@[k].key.initial == r0.slots@[k].key.initial
                &&& key_linked(t1, r0.slots@[k].addr as int, r1.slots@[k].key.entries)
            } else {
                r1.slots@[k] == r0.slots@[k]
            }
        }
}

/// Resolve every non-sentinel descriptor to absolute addresses, sort the
/// table by (key address, code address), and hand every referenced key the
/// address of its first descriptor.
fn global_init_inner(table: &mut JumpEntryTable, reg: &mut KeyRegistry, width: OffsetWidth)
    requires
        old(table).wf(),
        old(reg).wf(),
    ensures
        global_init_inner_post(*old(table), *final(table), *old(reg), *final(reg), width),
        final(table).wf(),
        final(reg).wf(),
{
    let ghost t0 = *table;
    // Update jump entries to hold absolute addresses.
    let n = table.len();
    let mut i: usize = 0;
    while i < n
        invariant
            i <= n,
            n == table.entries@.len(),
            table.start == t0.start,
            table.entries@.len() == t0.entries@.len(),
            table.wf(),
            forall|j: int| 0 <= j < i ==> table.entries@[j] == spec_resolved_table(t0, width)[j],
            forall|j: int| i <= j < n ==> table.entries@[j] == t0.entries@[j],
        decreases n - i,
    {
        let e = table.entries[i];
        if !e.is_dummy() {
            let entry_addr = table.entry_addr(i);
            proof {
                assert(JUMP_ENTRY_BYTES * (i as int + 1) <= JUMP_ENTRY_BYTES * n as int)
                    by (nonlinear_arith)
                    requires
                        i as int + 1 <= n as int,
                ;
            }
            let mut resolved = e;
            resolved.resolve(width, entry_addr);
            table.entries[i] = resolved;
        }
        i += 1;
    }
    proof {
        assert(table.entries@ =~= spec_resolved_table(t0, width));
    }
    // The jump entries are sorted by key address and code address.
    sort_jump_entries(&mut table.entries);
    // Update associated static keys: the first descriptor of each distinct
    // key hands the key its start address.
    let ghost r0 = *reg;
    let ghost s = table.entries@;
    let mut last_key_addr: usize = 0;
    let ghost mut last_idx: int = 0;
    let mut i: usize = 0;
    while i < n
        invariant
            i <= n,
            n == s.len(),
            s == table.entries@,
            table.wf(),
            entries_sorted(s),
            r0.wf(),
            reg.slots@.len() == r0.slots@.len(),
            forall|k: int|
                0 <= k < r0.slots@.len() ==> (#[trigger] reg.slots@[k]).addr == r0.slots@[k].addr,
            // keys seen so far are bounded by the last linked key address
            forall|j: int|
                0 <= j < i && !(#[trigger] s[j]).spec_is_dummy() ==> s[j].spec_key_addr()
                    <= last_key_addr,
            // the last linked key address was really seen, unless none was
            last_key_addr != 0 ==> 0 <= last_idx < i && !s[last_idx].spec_is_dummy()
                && s[last_idx].spec_key_addr() == last_key_addr,
            // every key with a descriptor so far is linked; the rest are untouched
            forall|k: int|
                #![trigger reg.slots@[k]]
                0 <= k < r0.slots@.len() ==> {
                    if has_entry_for(s.take(i as int), r0.slots@[k].addr as int) {
                        &&& reg.slots@[k].key.enabled == r0.slots@[k].key.enabled
                        &&& reg.slots@[k].key.initial == r0.slots@[k].key.initial
                        &&& key_linked(*table, r0.slots@[k].addr as int, reg.slots@[k].key.entries)
                    } else {
                        reg.slots@[k] == r0.slots@[k]
                    }
                },
        decreases n - i,
    {
        let e = table.entries[i];
        if !e.is_dummy() {
            let key_addr = e.key_addr();
            if key_addr != last_key_addr {
                proof {
                    // this is the first descriptor of its key
                    assert forall|j: int|
                        0 <= j < i && !(#[trigger] s[j]).spec_is_dummy() implies s[j].spec_key_addr()
                        != key_addr by {
                        if s[j].spec_key_addr() == key_addr {
                            if last_key_addr == 0 {
                                assert(s[j].spec_key_addr() <= 0);
                                assert(s[j].spec_key_addr() >= 0);
                            } else {
                                assert(entry_le(s[last_idx], s[i as int]));
                            }
                        }
                    }
                    assert(is_first_entry_for(s, key_addr as int, i as int));
                    assert(last_key_addr <= key_addr) by {
                        if last_key_addr != 0 {
                            assert(entry_le(s[last_idx], s[i as int]));
                        }
                    }
                }
                let entry_addr = table.entry_addr(i);
                let ghost reg_prev = *reg;
                reg.set_entries(key_addr, entry_addr);
                last_key_addr = key_addr;
                proof {
                    last_idx = i as int;
                    assert forall|k: int|
                        0 <= k < r0.slots@.len() implies (#[trigger] reg.slots@[k]).addr == r0.slots@[k].addr by {
                        if reg_prev.slots@[k].addr == key_addr {
                        } else {
                        }
                    }
                    assert forall|k: int|
                        #![trigger reg.slots@[k]]
                        0 <= k < r0.slots@.len() implies {
                        if has_entry_for(s.take(i + 1), r0.slots@[k].addr as int) {
                            &&& reg.slots@[k].key.enabled == r0.slots@[k].key.enabled
                            &&& reg.slots@[k].key.initial == r0.slots@[k].key.initial
                            &&& key_linked(*table, r0.slots@[k].addr as int, reg.slots@[k].key.entries)
                        } else {
                            reg.slots@[k] == r0.slots@[k]
                        }
                    } by {
                        let a = r0.slots@[k].addr;
                        assert(reg_prev.slots@[k].addr == a);
                        if a == key_addr {
                            assert(s.take(i + 1)[i as int] == s[i as int]);
                            assert(has_entry_for(s.take(i + 1), a as int));
                            assert(reg.slots@[k].key.entries == entry_addr);
                            assert(!has_entry_for(s.take(i as int), a as int)) by {
                                if has_entry_for(s.take(i as int), a as int) {
                                    let j = choose|j: int|
                                        0 <= j < s.take(i as int).len() && !(#[trigger] s.take(
                                            i as int,
                                        )[j]).spec_is_dummy() && s.take(i as int)[j].spec_key_addr()
                                            == a as int;
                                    assert(s.take(i as int)[j] == s[j]);
                                    assert(false);
                                }
                            }
                            assert(reg_prev.slots@[k] == r0.slots@[k]);
                            assert(key_linked(*table, a as int, reg.slots@[k].key.entries)) by {
                                assert(has_entry_for(s, a as int)) by {
                                    assert(!s[i as int].spec_is_dummy() && s[i as int].spec_key_addr()
                                        == a as int);
                                }
                                assert(is_first_entry_for(s, a as int, i as int) && entry_addr as int
                                    == table.spec_entry_addr(i as int));
                            }
                        } else {
                            assert(reg.slots@[k] == reg_prev.slots@[k]);
                            if has_entry_for(s.take(i + 1), a as int) {
                                assert(has_entry_for(s.take(i as int), a as int)) by {
                                    let j = choose|j: int|
                                        0 <= j < s.take(i + 1).len() && !(#[trigger] s.take(i + 1)[j]).spec_is_dummy()
                                            && s.take(i + 1)[j].spec_key_addr() == a as int;
                                    assert(s.take(i + 1)[j] == s[j]);
                                    assert(j != i as int);
                                    assert(s.take(i as int)[j] == s[j]);
                                }
                            }
                        }
                    }
                }
            } else {
                proof {
                    assert forall|k: int|
                        #![trigger reg.slots@[k]]
                        0 <= k < r0.slots@.len() implies {
                        if has_entry_for(s.take(i + 1), r0.slots@[k].addr as int) {
                            &&& reg.slots@[k].key.enabled == r0.slots@[k].key.enabled
                            &&& reg.slots@[k].key.initial == r0.slots@[k].key.initial
                            &&& key_linked(*table, r0.slots@[k].addr as int, reg.slots@[k].key.entries)
                        } else {
                            reg.slots@[k] == r0.slots@[k]
                        }
                    } by {
                        let a = r0.slots@[k].addr;
                        if has_entry_for(s.take(i + 1), a as int) && !has_entry_for(
                            s.take(i as int),
                            a as int,
                        ) {
                            let j = choose|j: int|
                                0 <= j < s.take(i + 1).len() && !(#[trigger] s.take(i + 1)[j]).spec_is_dummy()
                                    && s.take(i + 1)[j].spec_key_addr() == a as int;
                            assert(s.take(i + 1)[j] == s[j]);
                            if j < i {
                                assert(s.take(i as int)[j] == s[j]);
                                assert(false);
                            }
                            // the descriptor at i repeats the last key, so its
                            // key was seen and linked before
                            assert(a == last_key_addr);
                            assert(a != 0);
                            assert(s.take(i as int)[last_idx] == s[last_idx]);
                            assert(has_entry_for(s.take(i as int), a as int));
                            assert(false);
                        }
                    }
                }
            }
        } else {
            proof {
                assert forall|k: int|
                    #![trigger reg.slots@[k]]
                    0 <= k < r0.slots@.len() implies {
                    if has_entry_for(s.take(i + 1), r0.slots@[k].addr as int) {
                        &&& reg.slots@[k].key.enabled == r0.slots@[k].key.enabled
                        &&& reg.slots@[k].key.initial == r0.slots@[k].key.initial
                        &&& key_linked(*table, r0.slots@[k].addr as int, reg.slots@[k].key.entries)
                    } else {
                        reg.slots@[k] == r0.slots@[k]
                    }
                } by {
                    let a = r0.slots@[k].addr;
                    if has_entry_for(s.take(i + 1), a as int) && !has_entry_for(
                        s.take(i as int),
                        a as int,
                    ) {
                        let j = choose|j: int|
                            0 <= j < s.take(i + 1).len() && !(#[trigger] s.take(i + 1)[j]).spec_is_dummy()
                                && s.take(i + 1)[j].spec_key_addr() == a as int;
                        assert(s.take(i + 1)[j] == s[j]);
                        if j < i {
                            assert(s.take(i as int)[j] == s[j]);
                        }
                        assert(false);
                    }
                }
            }
        }
        i += 1;
    }
    proof {
        assert forall|k: int|
            #![trigger final(reg).slots@[k]]
            0 <= k < r0.slots@.len() implies {
            if has_entry_for(table.entries@, r0.slots@[k].addr as int) {
                &&& reg.slots@[k].key.enabled == r0.slots@[k].key.enabled
                &&& reg.slots@[k].key.initial == r0.slots@[k].key.initial
                &&& key_linked(*table, r0.slots@[k].addr as int, reg.slots@[k].key.entries)
            } else {
                reg.slots@[k] == r0.slots@[k]
            }
        } by {
            assert(s.take(n as int) =~= s);
        }
    }
}

/// Initialize the static keys data: resolve the descriptor table, sort it,
/// and link every referenced key, exactly once.
///
/// The flag records the protocol's progress.  A call that finds the work
/// already done returns without touching anything.  In the concurrent
/// realization the flag is advanced with an atomic compare-and-swap and a
/// caller that loses the race spin-waits for `Initialized`; a caller can
/// therefore never run while the flag reads `Initializing`.
pub fn global_init(
    state: &mut InitState,
    table: &mut JumpEntryTable,
    reg: &mut KeyRegistry,
    width: OffsetWidth,
)
    requires
        !(*old(state) is Initializing),
        old(table).wf(),
        old(reg).wf(),
    ensures
        *final(state) is Initialized,
        *old(state) is Initialized ==> *final(table) == *old(table) && *final(reg) == *old(reg),
        *old(state) is Uninitialized ==> global_init_inner_post(
            *old(table),
            *final(table),
            *old(reg),
            *final(reg),
            width,
        ),
        *old(state) is Uninitialized ==> final(table).wf() && final(reg).wf(),
{
    if *state == InitState::Initialized {
        // Someone else has initialized; nothing to do.
        return ;
    }
    *state = InitState::Initializing;
    global_init_inner(table, reg, width);
    *state = InitState::Initialized;
}

// ---------------------------- Laws ----------------------------
/// After global initialization, every key that went in with a clear
/// descriptor start comes out linked: toggling it meets the update
/// traversal's linking demand.  `r0`/`t0` are registry and table before
/// initialization, `r1`/`t1` after it; `k` is any slot.
pub proof fn lemma_global_init_links_keys(
    t0: JumpEntryTable,
    t1: JumpEntryTable,
    r0: KeyRegistry,
    r1: KeyRegistry,
    width: OffsetWidth,
    k: int,
)
    requires
        global_init_inner_post(t0, t1, r0, r1, width),
        0 <= k < r0.slots@.len(),
        r0.slots@[k].key.entries == 0,
    ensures
        key_linked(t1, r1.slots@[k].addr as int, r1.slots@[k].key.entries),
{
    assert(r1.slots@[k].addr == r0.slots@[k].addr);
    if !has_entry_for(t1.entries@, r0.slots@[k].addr as int) {
        assert(r1.slots@[k] == r0.slots@[k]);
    }
}

/// Every site of the key holds the instruction matching the key's current
/// state: the consistency that the initial code layout establishes and
/// every update traversal re-establishes.
pub open spec fn key_sites_consistent<M: CodeManipulator>(
    m: M,
    table: JumpEntryTable,
    key_addr: int,
    key: GenericStaticKey,
    arch: Arch,
) -> bool {
    forall|i: int|
        0 <= i < table.entries@.len() && !(#[trigger] table.entries@[i]).spec_is_dummy()
            && table.entries@[i].spec_key_addr() == key_addr ==> mem_has_bytes(
            m.code_mem(),
            table.entries@[i].code as int,
            spec_instruction(
                arch,
                spec_jump_label_type(key.enabled, table.entries@[i]),
                table.entries@[i],
            ),
        )
}

/// After `enable` or `disable` completes, every branch guarded by the key
/// evaluates to the new state, every branch guarded by a different key
/// keeps its value, and the key's sites are again consistent with its
/// state.
///
/// Descriptor `i` is any real descriptor of the table; `m0`/`key0` are the
/// manipulator and key before the call, `m1`/`key1` after it.
pub proof fn lemma_update_branch_effects<M: CodeManipulator>(
    key0: GenericStaticKey,
    key1: GenericStaticKey,
    m0: M,
    m1: M,
    key_addr: usize,
    table: JumpEntryTable,
    arch: Arch,
    enabled: bool,
    i: int,
)
    requires
        static_key_update_pre(key0, key_addr, table, arch, m0, enabled),
        static_key_update_post(key0, key1, m0, m1, key_addr, table, arch, enabled),
        key_sites_consistent(m0, table, key_addr as int, key0, arch),
        0 <= i < table.entries@.len(),
        !table.entries@[i].spec_is_dummy(),
    ensures
        table.entries@[i].spec_key_addr() == key_addr ==> spec_branch_value(
            m1.code_mem(),
            table.entries@[i],
            arch,
        ) == enabled,
        table.entries@[i].spec_key_addr() != key_addr ==> spec_branch_value(
            m1.code_mem(),
            table.entries@[i],
            arch,
        ) == spec_branch_value(m0.code_mem(), table.entries@[i], arch),
        key_sites_consistent(m1, table, key_addr as int, key1, arch),
{
    let s = table.entries@;
    let e = s[i];
    assert forall|j: int|
        0 <= j < s.len() && !(#[trigger] s[j]).spec_is_dummy() && s[j].spec_key_addr()
            == key_addr implies mem_has_bytes(
        m1.code_mem(),
        s[j].code as int,
        spec_instruction(arch, spec_jump_label_type(key1.enabled, s[j]), s[j]),
    ) by {
        if key0.enabled == enabled {
            assert(mem_has_bytes(
                m0.code_mem(),
                s[j].code as int,
                spec_instruction(arch, spec_jump_label_type(key0.enabled, s[j]), s[j]),
            ));
        }
    }
    if e.spec_key_addr() == key_addr {
        crate::arch::lemma_patched_branch_observes(m1.code_mem(), e, arch, enabled);
    } else {
        if key0.enabled != enabled {
            crate::arch::lemma_instruction_len(arch, JumpLabelType::Jmp, e);
            assert forall|a: int|
                e.code <= a < e.code + arch_ins_len(arch) implies (
            #[trigger] m1.code_mem().dom().contains(a) <==> m0.code_mem().dom().contains(a)) && (
            m0.code_mem().dom().contains(a) ==> m1.code_mem()[a] == m0.code_mem()[a]) by {
                if addr_in_key_sites(table, key_addr as int, arch, a) {
                    let j = choose|j: int|
                        0 <= j < s.len() && !(#[trigger] s[j]).spec_is_dummy()
                            && s[j].spec_key_addr() == key_addr as int && s[j].code <= a < s[j].code
                            + arch_ins_len(arch);
                    assert(j != i);
                    assert(s[i].code + arch_ins_len(arch) <= s[j].code || s[j].code + arch_ins_len(
                        arch,
                    ) <= s[i].code);
                    assert(false);
                }
            }
            crate::arch::lemma_branch_value_agree(m0.code_mem(), m1.code_mem(), e, arch);
        } else {
            crate::arch::lemma_branch_value_agree(m0.code_mem(), m1.code_mem(), e, arch);
        }
    }
}

/// Toggling a key to the state it already has is free: the second of two
/// like calls changes neither the key nor one byte of machine code.
pub proof fn lemma_update_idempotent<M: CodeManipulator>(
    key0: GenericStaticKey,
    key1: GenericStaticKey,
    key2: GenericStaticKey,
    m0: M,
    m1: M,
    m2: M,
    key_addr: usize,
    table: JumpEntryTable,
    arch: Arch,
    enabled: bool,
)
    requires
        static_key_update_post(key0, key1, m0, m1, key_addr, table, arch, enabled),
        static_key_update_post(key1, key2, m1, m2, key_addr, table, arch, enabled),
    ensures
        key2 == key1,
        m2.code_mem() == m1.code_mem(),
{
}

/// How far the initialization flag has advanced, as a rank.
pub open spec fn init_rank(s: InitState) -> int {
    match s {
        InitState::Uninitialized => 0,
        InitState::Initializing => 1,
        InitState::Initialized => 2,
    }
}

/// The compare-and-swap that grants the right to initialize: it succeeds
/// exactly on the transition out of `Uninitialized`.
pub open spec fn init_cas_won(pre: InitState, post: InitState) -> bool {
    pre is Uninitialized && post is Initializing
}

/// One atomic step of the initialization protocol: a load or failed
/// compare-and-swap that changes nothing, a won compare-and-swap, or the
/// winner publishing the finished work.
pub open spec fn init_step_ok(pre: InitState, post: InitState) -> bool {
    ||| post == pre
    ||| init_cas_won(pre, post)
    ||| (pre is Initializing && post is Initialized)
}

/// The initialization flag only moves forward.
pub proof fn lemma_init_state_monotone(trace: Seq<InitState>, a: int, b: int)
    requires
        forall|k: int| 0 <= k < trace.len() - 1 ==> init_step_ok(#[trigger] trace[k], trace[k + 1]),
        0 <= a <= b < trace.len(),
    ensures
        init_rank(trace[a]) <= init_rank(trace[b]),
    decreases b - a,
{
    if a < b {
        lemma_init_state_monotone(trace, a, b - 1);
        assert(init_step_ok(trace[b - 1], trace[b]));
    }
}

/// However many callers race `global_init`, at most one wins the
/// compare-and-swap and performs the work: in any sequence of protocol
/// steps, a second winning step is impossible.
pub proof fn lemma_init_single_winner(trace: Seq<InitState>, i: int, j: int)
    requires
        forall|k: int| 0 <= k < trace.len() - 1 ==> init_step_ok(#[trigger] trace[k], trace[k + 1]),
        0 <= i < j < trace.len() - 1,
        init_cas_won(trace[i], trace[i + 1]),
    ensures
        !init_cas_won(trace[j], trace[j + 1]),
{
    lemma_init_state_monotone(trace, i + 1, j);
}

} // verus!
