//! AArch64 instruction encodings: the 4-byte `B` unconditional branch with
//! a 26-bit instruction-count immediate, and the fixed 4-byte NOP.

use vstd::prelude::*;

verus! {

use crate::JumpLabelType;
use crate::jump_entry::JumpEntry;
use crate::arch::u32_le_bytes;
use crate::arch::push_u32_le;

/// Length of the jump instruction to be replaced.
pub const ARCH_JUMP_INS_LENGTH: usize = 4;

/// The fixed NOP instruction word.
pub const AARCH64_INSN_NOP: u32 = 0xD503201F;

/// Base opcode of the unconditional branch `B`: `000101` in the top six
/// bits.
pub const AARCH64_INSN_B: u32 = 0x14000000;

/// The caller guarantees the code layout keeps every branch displacement
/// within the +/-128 MiB range of `B`, at instruction granularity.
pub open spec fn spec_displacement_ok(code: usize, target: usize) -> bool {
    &&& -0x800_0000 <= target - code < 0x800_0000
    &&& (target - code) % 4 == 0
}

/// The branch displacement, truncated to 32 bits.
pub open spec fn spec_rel(code: usize, target: usize) -> u32 {
    vstd::wrapping::usize_specs::wrapping_sub(target, code) as u32
}

/// The `B` instruction word: the displacement in instruction units masked
/// to the 26-bit immediate field, under the `000101` opcode.
pub open spec fn spec_jump_word(rel: u32) -> u32 {
    AARCH64_INSN_B | ((rel >> 2) & 0x03FFFFFF)
}

/// The 4-byte `B` branch, little endian.
pub open spec fn spec_jump_bytes(code: usize, target: usize) -> Seq<u8> {
    u32_le_bytes(spec_jump_word(spec_rel(code, target)))
}

/// The fixed 4-byte AArch64 NOP, little endian.
pub open spec fn spec_nop_bytes() -> Seq<u8> {
    u32_le_bytes(AARCH64_INSN_NOP)
}

/// New instruction generated according to jump label type and jump entry.
pub fn arch_jump_entry_instruction(jump_label_type: JumpLabelType, jump_entry: &JumpEntry) -> (r:
    Vec<u8>)
    ensures
        jump_label_type is Jmp ==> r@ == spec_jump_bytes(jump_entry.code, jump_entry.target),
        jump_label_type is Nop ==> r@ == spec_nop_bytes(),
        r@.len() == ARCH_JUMP_INS_LENGTH,
{
    match jump_label_type {
        JumpLabelType::Jmp => {
            let relative_addr: u32 = #[verifier::truncate] (jump_entry.target_addr().wrapping_sub(
                jump_entry.code_addr(),
            ) as u32);
            let b: u32 = AARCH64_INSN_B | ((relative_addr >> 2) & 0x03FFFFFF);
            let mut r: Vec<u8> = Vec::new();
            push_u32_le(&mut r, b);
            proof {
                assert(r@ =~= spec_jump_bytes(jump_entry.code, jump_entry.target));
            }
            r
        },
        JumpLabelType::Nop => {
            let mut r: Vec<u8> = Vec::new();
            push_u32_le(&mut r, AARCH64_INSN_NOP);
            proof {
                assert(r@ =~= spec_nop_bytes());
            }
            r
        },
    }
}

/// The NOP and the branch encodings never coincide: a branch's high byte
/// carries the `000101` opcode in its upper six bits, the NOP's high byte
/// is `0xD5`.
pub proof fn lemma_nop_is_not_jump(code: usize, target: usize)
    ensures
        spec_nop_bytes() != spec_jump_bytes(code, target),
{
    let rel = spec_rel(code, target);
    assert(((spec_jump_word(rel) >> 24) & 0xff) as u8 != ((AARCH64_INSN_NOP >> 24) & 0xff) as u8)
        by (bit_vector);
    assert(spec_jump_bytes(code, target)[3] == ((spec_jump_word(rel) >> 24) & 0xff) as u8);
    assert(spec_nop_bytes()[3] == ((AARCH64_INSN_NOP >> 24) & 0xff) as u8);
}

} // verus!
