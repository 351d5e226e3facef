//! Per-architecture instruction codecs.
//!
//! Each architecture encodes a guarded branch site as either a fixed-length
//! NOP or a fixed-length unconditional jump; toggling a key swaps one for
//! the other.  The codecs are pure functions from (jump label type, branch
//! site) to instruction bytes; `Arch` selects the variant, standing in for
//! the build-time choice of target.

use vstd::prelude::*;

pub mod aarch64;
pub mod loongarch64;
pub mod riscv64;
pub mod x86;
pub mod x86_64;

verus! {

use crate::JumpLabelType;
use crate::jump_entry::JumpEntry;
use crate::code_manipulate::mem_has_bytes;

/// The instruction-set architectures whose branch encodings are supported.
#[derive(Clone, Copy, PartialEq, Eq, Structural, Debug)]
pub enum Arch {
    X86,
    X86_64,
    Aarch64,
    Riscv64,
    Loongarch64,
}

/// Little-endian byte sequence of a 32-bit word.
pub open spec fn u32_le_bytes(w: u32) -> Seq<u8> {
    seq![
        (w & 0xff) as u8,
        ((w >> 8) & 0xff) as u8,
        ((w >> 16) & 0xff) as u8,
        ((w >> 24) & 0xff) as u8,
    ]
}

/// Append the little-endian bytes of `w`.
pub fn push_u32_le(v: &mut Vec<u8>, w: u32)
    ensures
        final(v)@ == old(v)@ + u32_le_bytes(w),
{
    v.push((w & 0xff) as u8);
    v.push(((w >> 8) & 0xff) as u8);
    v.push(((w >> 16) & 0xff) as u8);
    v.push(((w >> 24) & 0xff) as u8);
    proof {
        assert(v@ =~= old(v)@ + u32_le_bytes(w));
    }
}

/// Length in bytes of both the NOP and the jump encoding of `arch`.
pub open spec fn arch_ins_len(arch: Arch) -> int {
    match arch {
        Arch::X86 => 5,
        Arch::X86_64 => 5,
        Arch::Aarch64 => 4,
        Arch::Riscv64 => 4,
        Arch::Loongarch64 => 4,
    }
}

/// Length in bytes of both the NOP and the jump encoding of `arch`.
pub fn ins_len(arch: Arch) -> (r: usize)
    ensures
        r as int == arch_ins_len(arch),
{
    match arch {
        Arch::X86 => 5,
        Arch::X86_64 => 5,
        Arch::Aarch64 => 4,
        Arch::Riscv64 => 4,
        Arch::Loongarch64 => 4,
    }
}

/// The fixed NOP encoding of `arch`.
pub open spec fn spec_nop_bytes(arch: Arch) -> Seq<u8> {
    match arch {
        Arch::X86 => x86::spec_nop_bytes(),
        Arch::X86_64 => x86_64::spec_nop_bytes(),
        Arch::Aarch64 => aarch64::spec_nop_bytes(),
        Arch::Riscv64 => riscv64::spec_nop_bytes(),
        Arch::Loongarch64 => loongarch64::spec_nop_bytes(),
    }
}

/// The jump encoding of `arch` for a site at `code` branching to `target`.
pub open spec fn spec_jump_bytes(arch: Arch, code: usize, target: usize) -> Seq<u8> {
    match arch {
        Arch::X86 => x86::spec_jump_bytes(code, target),
        Arch::X86_64 => x86_64::spec_jump_bytes(code, target),
        Arch::Aarch64 => aarch64::spec_jump_bytes(code, target),
        Arch::Riscv64 => riscv64::spec_jump_bytes(code, target),
        Arch::Loongarch64 => loongarch64::spec_jump_bytes(code, target),
    }
}

/// The displacement limits the code layout must respect for a jump at
/// `code` to reach `target` on `arch`.  The encoders assume these always
/// hold; they perform no runtime range check.
pub open spec fn jump_displacement_ok(arch: Arch, code: usize, target: usize) -> bool {
    match arch {
        Arch::X86 => x86::spec_displacement_ok(code, target),
        Arch::X86_64 => x86_64::spec_displacement_ok(code, target),
        Arch::Aarch64 => aarch64::spec_displacement_ok(code, target),
        Arch::Riscv64 => riscv64::spec_displacement_ok(code, target),
        Arch::Loongarch64 => loongarch64::spec_displacement_ok(code, target),
    }
}

/// The instruction a branch site holds for a given jump label type.
pub open spec fn spec_instruction(arch: Arch, t: JumpLabelType, e: JumpEntry) -> Seq<u8> {
    match t {
        JumpLabelType::Nop => spec_nop_bytes(arch),
        JumpLabelType::Jmp => spec_jump_bytes(arch, e.code, e.target),
    }
}

/// Which jump label type a site needs for key state `enabled`: the jump
/// when the state differs from the likely branch, the NOP when it matches.
pub open spec fn spec_jump_label_type(enabled: bool, e: JumpEntry) -> JumpLabelType {
    if enabled != e.spec_likely_branch_is_true() {
        JumpLabelType::Jmp
    } else {
        JumpLabelType::Nop
    }
}

/// New instruction generated according to jump label type and jump entry,
/// for the selected architecture.
pub fn arch_jump_entry_instruction(
    arch: Arch,
    jump_label_type: JumpLabelType,
    jump_entry: &JumpEntry,
) -> (r: Vec<u8>)
    requires
        jump_label_type is Jmp ==> jump_displacement_ok(arch, jump_entry.code, jump_entry.target),
    ensures
        r@ == spec_instruction(arch, jump_label_type, *jump_entry),
        r@.len() == arch_ins_len(arch),
{
    match arch {
        Arch::X86 => x86::arch_jump_entry_instruction(jump_label_type, jump_entry),
        Arch::X86_64 => x86_64::arch_jump_entry_instruction(jump_label_type, jump_entry),
        Arch::Aarch64 => aarch64::arch_jump_entry_instruction(jump_label_type, jump_entry),
        Arch::Riscv64 => riscv64::arch_jump_entry_instruction(jump_label_type, jump_entry),
        Arch::Loongarch64 => loongarch64::arch_jump_entry_instruction(jump_label_type, jump_entry),
    }
}

/// Both encodings of an architecture have the architecture's fixed
/// instruction length.
pub proof fn lemma_instruction_len(arch: Arch, t: JumpLabelType, e: JumpEntry)
    ensures
        spec_instruction(arch, t, e).len() == arch_ins_len(arch),
{
}

/// On every architecture the NOP and the jump encodings differ, whatever
/// the addresses.
pub proof fn lemma_nop_is_not_jump(arch: Arch, code: usize, target: usize)
    ensures
        spec_nop_bytes(arch) != spec_jump_bytes(arch, code, target),
{
    match arch {
        Arch::X86 => x86::lemma_nop_is_not_jump(code, target),
        Arch::X86_64 => x86_64::lemma_nop_is_not_jump(code, target),
        Arch::Aarch64 => aarch64::lemma_nop_is_not_jump(code, target),
        Arch::Riscv64 => riscv64::lemma_nop_is_not_jump(code, target),
        Arch::Loongarch64 => loongarch64::lemma_nop_is_not_jump(code, target),
    }
}

/// Value a guarded branch evaluates to under code image `m`: the site falls
/// through to the likely branch unless it holds the jump instruction, which
/// diverts to the unlikely branch.
pub open spec fn spec_branch_value(m: Map<int, u8>, e: JumpEntry, arch: Arch) -> bool {
    if mem_has_bytes(m, e.code as int, spec_jump_bytes(arch, e.code, e.target)) {
        !e.spec_likely_branch_is_true()
    } else {
        e.spec_likely_branch_is_true()
    }
}

/// A site that holds the instruction selected for key state `enabled`
/// evaluates its guarded branch to exactly `enabled`.
pub proof fn lemma_patched_branch_observes(m: Map<int, u8>, e: JumpEntry, arch: Arch, enabled: bool)
    requires
        mem_has_bytes(m, e.code as int, spec_instruction(arch, spec_jump_label_type(enabled, e), e)),
    ensures
        spec_branch_value(m, e, arch) == enabled,
{
    let jump = spec_jump_bytes(arch, e.code, e.target);
    let nop = spec_nop_bytes(arch);
    if enabled != e.spec_likely_branch_is_true() {
        assert(mem_has_bytes(m, e.code as int, jump));
    } else {
        assert(mem_has_bytes(m, e.code as int, nop));
        lemma_nop_is_not_jump(arch, e.code, e.target);
        if mem_has_bytes(m, e.code as int, jump) {
            assert(jump.len() == nop.len()) by {
                lemma_instruction_len(arch, JumpLabelType::Jmp, e);
                lemma_instruction_len(arch, JumpLabelType::Nop, e);
            }
            assert(jump =~= nop) by {
                assert forall|k: int| 0 <= k < jump.len() implies jump[k] == nop[k] by {
                    let a = e.code as int + k;
                    assert(e.code <= a < e.code + jump.len());
                    assert(m.dom().contains(a) && m[a] == jump[a - e.code]);
                    assert(m.dom().contains(a) && m[a] == nop[a - e.code]);
                }
            }
            assert(false);
        }
    }
}

/// Two code images that agree on a site's instruction bytes give its
/// guarded branch the same value.
pub proof fn lemma_branch_value_agree(m1: Map<int, u8>, m2: Map<int, u8>, e: JumpEntry, arch: Arch)
    requires
        forall|a: int|
            e.code <= a < e.code + arch_ins_len(arch) ==> (#[trigger] m1.dom().contains(a)
                <==> m2.dom().contains(a)) && (m1.dom().contains(a) ==> m1[a] == m2[a]),
    ensures
        spec_branch_value(m1, e, arch) == spec_branch_value(m2, e, arch),
{
    let jump = spec_jump_bytes(arch, e.code, e.target);
    lemma_instruction_len(arch, JumpLabelType::Jmp, e);
    crate::code_manipulate::lemma_mem_has_bytes_agree(m1, m2, e.code as int, jump);
}

} // verus!
