//! 32-bit x86 instruction encodings: the 5-byte `E9 rel32` unconditional
//! jump and the 5-byte `lea esi, [esi]` NOP.

use vstd::prelude::*;

verus! {

use crate::JumpLabelType;
use crate::jump_entry::JumpEntry;
use crate::jump_entry::wrap_add;
use crate::arch::u32_le_bytes;
use crate::arch::push_u32_le;

/// Length of the jump instruction to be replaced.
pub const ARCH_JUMP_INS_LENGTH: usize = 5;

/// The caller guarantees the code layout keeps every jump displacement
/// within the signed 32-bit range of `E9 rel32`.
pub open spec fn spec_displacement_ok(code: usize, target: usize) -> bool {
    -0x8000_0000 <= target - (code + 5) < 0x8000_0000
}

/// The encoded displacement: target minus the address of the next
/// instruction, truncated to 32 bits.
pub open spec fn spec_rel32(code: usize, target: usize) -> u32 {
    vstd::wrapping::usize_specs::wrapping_sub(target, wrap_add(code, 5)) as u32
}

/// The 5-byte `E9 rel32` jump, displacement little-endian.
pub open spec fn spec_jump_bytes(code: usize, target: usize) -> Seq<u8> {
    seq![0xe9u8] + u32_le_bytes(spec_rel32(code, target))
}

/// The fixed 5-byte NOP.
pub open spec fn spec_nop_bytes() -> Seq<u8> {
    seq![0x3eu8, 0x8du8, 0x74u8, 0x26u8, 0x00u8]
}

/// New instruction generated according to jump label type and jump entry.
pub fn arch_jump_entry_instruction(jump_label_type: JumpLabelType, jump_entry: &JumpEntry) -> (r:
    Vec<u8>)
    ensures
        jump_label_type is Jmp ==> r@ == spec_jump_bytes(jump_entry.code, jump_entry.target),
        jump_label_type is Nop ==> r@ == spec_nop_bytes(),
        r@.len() == ARCH_JUMP_INS_LENGTH,
{
    match jump_label_type {
        JumpLabelType::Jmp => {
            let rel32: u32 = #[verifier::truncate] (jump_entry.target_addr().wrapping_sub(
                jump_entry.code_addr().wrapping_add(ARCH_JUMP_INS_LENGTH),
            ) as u32);
            let mut r: Vec<u8> = Vec::new();
            r.push(0xe9);
            push_u32_le(&mut r, rel32);
            proof {
                assert(r@ =~= spec_jump_bytes(jump_entry.code, jump_entry.target));
            }
            r
        },
        JumpLabelType::Nop => {
            let mut r: Vec<u8> = Vec::new();
            r.push(0x3e);
            r.push(0x8d);
            r.push(0x74);
            r.push(0x26);
            r.push(0x00);
            proof {
                assert(r@ =~= spec_nop_bytes());
            }
            r
        },
    }
}

/// The NOP and the jump encodings never coincide: they differ in the first
/// byte.
pub proof fn lemma_nop_is_not_jump(code: usize, target: usize)
    ensures
        spec_nop_bytes() != spec_jump_bytes(code, target),
{
    assert(spec_jump_bytes(code, target)[0] == 0xe9);
    assert(spec_nop_bytes()[0] == 0x3e);
}

} // verus!
