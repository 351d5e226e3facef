//! x86-64 instruction encodings: the 5-byte `E9 rel32` unconditional jump
//! and the 5-byte multi-byte NOP.

use vstd::prelude::*;

verus! {

use crate::JumpLabelType;
use crate::jump_entry::JumpEntry;
use crate::jump_entry::wrap_add;
use crate::arch::u32_le_bytes;
use crate::arch::push_u32_le;

/// Length of the jump instruction to be replaced.
pub const ARCH_JUMP_INS_LENGTH: usize = 5;

/// The caller guarantees the code layout keeps every jump displacement
/// within the signed 32-bit range of `E9 rel32`.
pub open spec fn spec_displacement_ok(code: usize, target: usize) -> bool {
    -0x8000_0000 <= target - (code + 5) < 0x8000_0000
}

/// The encoded displacement: target minus the address of the next
/// instruction, truncated to 32 bits.
pub open spec fn spec_rel32(code: usize, target: usize) -> u32 {
    vstd::wrapping::usize_specs::wrapping_sub(target, wrap_add(code, 5)) as u32
}

/// The 5-byte `E9 rel32` jump, displacement little-endian.
pub open spec fn spec_jump_bytes(code: usize, target: usize) -> Seq<u8> {
    seq![0xe9u8] + u32_le_bytes(spec_rel32(code, target))
}

/// The fixed 5-byte NOP.
pub open spec fn spec_nop_bytes() -> Seq<u8> {
    seq![0x0fu8, 0x1fu8, 0x44u8, 0x00u8, 0x00u8]
}

/// New instruction generated according to jump label type and jump entry.
pub fn arch_jump_entry_instruction(jump_label_type: JumpLabelType, jump_entry: &JumpEntry) -> (r:
    Vec<u8>)
    ensures
        jump_label_type is Jmp ==> r@ == spec_jump_bytes(jump_entry.code, jump_entry.target),
        jump_label_type is Nop ==> r@ == spec_nop_bytes(),
        r@.len() == ARCH_JUMP_INS_LENGTH,
{
    match jump_label_type {
        JumpLabelType::Jmp => {
            let rel32: u32 = #[verifier::truncate] (jump_entry.target_addr().wrapping_sub(
                jump_entry.code_addr().wrapping_add(ARCH_JUMP_INS_LENGTH),
            ) as u32);
            let mut r: Vec<u8> = Vec::new();
            r.push(0xe9);
            push_u32_le(&mut r, rel32);
            proof {
                assert(r@ =~= spec_jump_bytes(jump_entry.code, jump_entry.target));
            }
            r
        },
        JumpLabelType::Nop => {
            let mut r: Vec<u8> = Vec::new();
            r.push(0x0f);
            r.push(0x1f);
            r.push(0x44);
            r.push(0x00);
            r.push(0x00);
            proof {
                assert(r@ =~= spec_nop_bytes());
            }
            r
        },
    }
}

/// The NOP and the jump encodings never coincide: they differ in the first
/// byte.
pub proof fn lemma_nop_is_not_jump(code: usize, target: usize)
    ensures
        spec_nop_bytes() != spec_jump_bytes(code, target),
{
    let w = spec_rel32(code, target);
    assert(spec_jump_bytes(code, target)[0] == 0xe9);
    assert(spec_nop_bytes()[0] == 0x0f);
}

/// Bytes of the aligned word that an atomic word-sized store writes to
/// splice `data` into `current` at `offset`: the patched bytes replaced, the
/// rest of the word kept.
pub fn arch_atomic_splice_word(current: &Vec<u8>, data: &Vec<u8>, offset: usize) -> (r: Vec<u8>)
    requires
        current@.len() == 8,
        offset + data@.len() <= 8,
    ensures
        r@.len() == 8,
        forall|k: int|
            0 <= k < 8 ==> r@[k] == (if offset <= k < offset + data@.len() {
                data@[k - offset]
            } else {
                current@[k]
            }),
{
    let mut r: Vec<u8> = Vec::new();
    let mut k: usize = 0;
    while k < 8
        invariant
            k <= 8,
            current@.len() == 8,
            offset + data@.len() <= 8,
            r@.len() == k,
            forall|j: int|
                0 <= j < k ==> r@[j] == (if offset <= j < offset + data@.len() {
                    data@[j - offset]
                } else {
                    current@[j]
                }),
        decreases 8 - k,
    {
        if offset <= k && k < offset + data.len() {
            r.push(data[k - offset]);
        } else {
            r.push(current[k]);
        }
        k += 1;
    }
    r
}

} // verus!
