//! RISC-V 64 instruction encodings: the 4-byte `JAL x0` jump with its
//! permuted immediate bit layout, and the canonical 4-byte NOP.

use vstd::prelude::*;

verus! {

use crate::JumpLabelType;
use crate::jump_entry::JumpEntry;
use crate::arch::u32_le_bytes;
use crate::arch::push_u32_le;

/// Length of the jump instruction to be replaced.
pub const ARCH_JUMP_INS_LENGTH: usize = 4;

/// Base opcode of `JAL` with destination register `x0`.
pub const RISCV_INSN_JAL: u32 = 0x0000006f;

/// The caller guarantees the code layout keeps every jump displacement
/// within the +/-512 KiB range of `JAL`, at even granularity.
pub open spec fn spec_displacement_ok(code: usize, target: usize) -> bool {
    &&& -0x8_0000 <= target - code < 0x8_0000
    &&& (target - code) % 2 == 0
}

/// The jump displacement, truncated to 32 bits.
pub open spec fn spec_rel(code: usize, target: usize) -> u32 {
    vstd::wrapping::usize_specs::wrapping_sub(target, code) as u32
}

/// The `JAL x0` instruction word: displacement bits 19:12, 11, 10:1 and 20
/// scattered into the instruction's immediate fields.
pub open spec fn spec_jump_word(rel: u32) -> u32 {
    RISCV_INSN_JAL | (rel & 0x000FF000) | ((rel & 0x00000800) << 9) | ((rel & 0x000007FE) << 20)
        | ((rel & 0x00100000) << 11)
}

/// The 4-byte `JAL x0` jump, little endian.
pub open spec fn spec_jump_bytes(code: usize, target: usize) -> Seq<u8> {
    u32_le_bytes(spec_jump_word(spec_rel(code, target)))
}

/// The canonical 4-byte NOP (`addi x0, x0, 0`).
pub open spec fn spec_nop_bytes() -> Seq<u8> {
    seq![0x13u8, 0x00u8, 0x00u8, 0x00u8]
}

/// New instruction generated according to jump label type and jump entry.
pub fn arch_jump_entry_instruction(jump_label_type: JumpLabelType, jump_entry: &JumpEntry) -> (r:
    Vec<u8>)
    ensures
        jump_label_type is Jmp ==> r@ == spec_jump_bytes(jump_entry.code, jump_entry.target),
        jump_label_type is Nop ==> r@ == spec_nop_bytes(),
        r@.len() == ARCH_JUMP_INS_LENGTH,
{
    match jump_label_type {
        JumpLabelType::Jmp => {
            let relative_addr: u32 = #[verifier::truncate] (jump_entry.target_addr().wrapping_sub(
                jump_entry.code_addr(),
            ) as u32);
            let jal: u32 = RISCV_INSN_JAL | (relative_addr & 0x000FF000) | ((relative_addr
                & 0x00000800) << 9) | ((relative_addr & 0x000007FE) << 20) | ((relative_addr
                & 0x00100000) << 11);
            let mut r: Vec<u8> = Vec::new();
            push_u32_le(&mut r, jal);
            proof {
                assert(r@ =~= spec_jump_bytes(jump_entry.code, jump_entry.target));
            }
            r
        },
        JumpLabelType::Nop => {
            let mut r: Vec<u8> = Vec::new();
            r.push(0x13);
            r.push(0x00);
            r.push(0x00);
            r.push(0x00);
            proof {
                assert(r@ =~= spec_nop_bytes());
            }
            r
        },
    }
}

/// The NOP and the jump encodings never coincide: the jump's low byte holds
/// the `JAL` opcode.
pub proof fn lemma_nop_is_not_jump(code: usize, target: usize)
    ensures
        spec_nop_bytes() != spec_jump_bytes(code, target),
{
    let rel = spec_rel(code, target);
    assert((spec_jump_word(rel) & 0xff) as u8 == 0x6f) by (bit_vector);
    assert(spec_jump_bytes(code, target)[0] == (spec_jump_word(rel) & 0xff) as u8);
    assert(spec_nop_bytes()[0] == 0x13);
}

} // verus!
