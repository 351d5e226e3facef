//! Exact instruction encodings per architecture, descriptor resolution,
//! sorting, page arithmetic and the atomic word splice.

use static_keys::arch::aarch64;
use static_keys::arch::arch_jump_entry_instruction;
use static_keys::arch::ins_len;
use static_keys::arch::loongarch64;
use static_keys::arch::riscv64;
use static_keys::arch::x86;
use static_keys::arch::x86_64;
use static_keys::arch::Arch;
use static_keys::code_manipulate::CodeManipulator;
use static_keys::code_manipulate::SyncCodeManipulator;
use static_keys::jump_entry::JumpEntry;
use static_keys::os::none::ArchCodeManipulator;
use static_keys::os::page::page_span;
use static_keys::sort::sort_jump_entries;
use static_keys::JumpLabelType;

fn entry(code: usize, target: usize) -> JumpEntry {
    JumpEntry::new(code, target, 0x100)
}

#[test]
fn test_x86_64_codec_round_trip() {
    // code 0x1000, target 0x2000: rel32 = 0x2000 - (0x1000 + 5) = 0x0FFB.
    let jump = x86_64::arch_jump_entry_instruction(JumpLabelType::Jmp, &entry(0x1000, 0x2000));
    assert_eq!(jump, vec![0xE9, 0xFB, 0x0F, 0x00, 0x00]);
    let nop = x86_64::arch_jump_entry_instruction(JumpLabelType::Nop, &entry(0x1000, 0x2000));
    assert_eq!(nop, vec![0x0F, 0x1F, 0x44, 0x00, 0x00]);
    // The NOP is independent of the addresses.
    let nop2 = x86_64::arch_jump_entry_instruction(JumpLabelType::Nop, &entry(0x7777, 0x1234));
    assert_eq!(nop2, nop);
}

#[test]
fn test_x86_64_backward_jump() {
    // code 0x2000, target 0x1000: rel32 = -0x1005, two's complement.
    let jump = x86_64::arch_jump_entry_instruction(JumpLabelType::Jmp, &entry(0x2000, 0x1000));
    assert_eq!(jump, vec![0xE9, 0xFB, 0xEF, 0xFF, 0xFF]);
}

#[test]
fn test_x86_codec() {
    let jump = x86::arch_jump_entry_instruction(JumpLabelType::Jmp, &entry(0x1000, 0x2000));
    assert_eq!(jump, vec![0xE9, 0xFB, 0x0F, 0x00, 0x00]);
    let nop = x86::arch_jump_entry_instruction(JumpLabelType::Nop, &entry(0x1000, 0x2000));
    assert_eq!(nop, vec![0x3E, 0x8D, 0x74, 0x26, 0x00]);
}

#[test]
fn test_aarch64_codec() {
    // B with displacement 0x1000: imm26 = 0x400, word 0x14000400.
    let jump = aarch64::arch_jump_entry_instruction(JumpLabelType::Jmp, &entry(0x1000, 0x2000));
    assert_eq!(jump, vec![0x00, 0x04, 0x00, 0x14]);
    let nop = aarch64::arch_jump_entry_instruction(JumpLabelType::Nop, &entry(0x1000, 0x2000));
    assert_eq!(nop, vec![0x1F, 0x20, 0x03, 0xD5]);
}

#[test]
fn test_aarch64_backward_jump() {
    // code 0x2000, target 0x1000: units -0x400, masked to the 26-bit
    // immediate field: word 0x14000000 | 0x03FFFC00 = 0x17FFFC00.  The
    // opcode bits stay 000101 for backward branches.
    let jump = aarch64::arch_jump_entry_instruction(JumpLabelType::Jmp, &entry(0x2000, 0x1000));
    assert_eq!(jump, vec![0x00, 0xFC, 0xFF, 0x17]);
}

#[test]
fn test_riscv64_codec() {
    // JAL x0 with displacement 0x800: immediate bit 11 lands in word bit 20.
    let jump = riscv64::arch_jump_entry_instruction(JumpLabelType::Jmp, &entry(0x1000, 0x1800));
    assert_eq!(jump, vec![0x6F, 0x00, 0x10, 0x00]);
    let nop = riscv64::arch_jump_entry_instruction(JumpLabelType::Nop, &entry(0x1000, 0x1800));
    assert_eq!(nop, vec![0x13, 0x00, 0x00, 0x00]);
}

#[test]
fn test_riscv64_backward_jump() {
    // code 0x2000, target 0x1000: offset -0x1000, `jal x0, -4096` encodes
    // as 0x800FF06F (sign bit in word bit 31, bits 19:12 all set).
    let jump = riscv64::arch_jump_entry_instruction(JumpLabelType::Jmp, &entry(0x2000, 0x1000));
    assert_eq!(jump, vec![0x6F, 0xF0, 0x0F, 0x80]);
}

#[test]
fn test_loongarch64_codec() {
    // B with displacement 0x1000: units 0x400, low 16 bits into word bits 10..26.
    let jump = loongarch64::arch_jump_entry_instruction(JumpLabelType::Jmp, &entry(0x1000, 0x2000));
    assert_eq!(jump, vec![0x00, 0x00, 0x10, 0x50]);
    let nop = loongarch64::arch_jump_entry_instruction(JumpLabelType::Nop, &entry(0x1000, 0x2000));
    assert_eq!(nop, vec![0x00, 0x00, 0x40, 0x03]);
}

#[test]
fn test_loongarch64_backward_jump() {
    // code 0x2000, target 0x1000: units -0x400 as a 26-bit immediate is
    // 0x3FFFC00; its low 16 bits (0xFC00) land in word bits 25..10, its
    // high 10 bits (0x3FF) in bits 9..0: word 0x53F003FF.
    let jump = loongarch64::arch_jump_entry_instruction(JumpLabelType::Jmp, &entry(0x2000, 0x1000));
    assert_eq!(jump, vec![0xFF, 0x03, 0xF0, 0x53]);
}

#[test]
fn test_dispatch_matches_each_codec() {
    let e = entry(0x1000, 0x2000);
    for arch in [Arch::X86, Arch::X86_64, Arch::Aarch64, Arch::Riscv64, Arch::Loongarch64] {
        let jump = arch_jump_entry_instruction(arch, JumpLabelType::Jmp, &e);
        let nop = arch_jump_entry_instruction(arch, JumpLabelType::Nop, &e);
        assert_eq!(jump.len(), ins_len(arch));
        assert_eq!(nop.len(), ins_len(arch));
        assert_ne!(jump, nop);
    }
}

#[test]
fn test_resolution_makes_offsets_absolute() {
    // Stored relative to each field's own address within the descriptor.
    let base: usize = 0x10000;
    let mut e = JumpEntry::new(
        0x4000usize.wrapping_sub(base),
        0x4020usize.wrapping_sub(base + 8),
        0x101usize.wrapping_sub(base + 16),
    );
    e.make_relative_address_absolute(base);
    assert_eq!(e.code_addr(), 0x4000);
    assert_eq!(e.target_addr(), 0x4020);
    assert_eq!(e.key_addr(), 0x100);
    assert!(e.likely_branch_is_true());
    assert!(!e.is_dummy());
}

#[test]
fn test_resolution_sign_extends_truncated_offsets() {
    // A linker that truncates offsets to 32 bits: 0xFFFF_FFFF means -1.
    let mut e = JumpEntry::new(0xFFFF_FFFF, 8, 0xFFFF_FFF0);
    e.make_relative_address_absolute_truncated(0x10000);
    assert_eq!(e.code_addr(), 0xFFFF);
    assert_eq!(e.target_addr(), 0x10010);
    assert_eq!(e.key_addr(), 0x10000);
}

#[test]
fn test_sort_orders_by_key_then_code() {
    let mut v = vec![
        JumpEntry::new(0x30, 0, 0x200),
        JumpEntry::new(0x20, 0, 0x101),
        JumpEntry::new(0x10, 0, 0x100),
        JumpEntry::new(0x40, 0, 0x200),
    ];
    sort_jump_entries(&mut v);
    let order: Vec<(usize, usize)> = v.iter().map(|e| (e.key_addr(), e.code_addr())).collect();
    assert_eq!(order, vec![(0x100, 0x10), (0x100, 0x20), (0x200, 0x30), (0x200, 0x40)]);
}

#[test]
fn test_sort_keeps_tied_descriptors_in_order() {
    // Two descriptors tied in both key and code address: the sort is
    // stable, so they keep their table order.
    let mut v = vec![
        JumpEntry::new(0x10, 0xAA, 0x100),
        JumpEntry::new(0x10, 0xBB, 0x100),
        JumpEntry::new(0x08, 0xCC, 0x100),
    ];
    sort_jump_entries(&mut v);
    assert_eq!(v[0].target_addr(), 0xCC);
    assert_eq!(v[1].target_addr(), 0xAA);
    assert_eq!(v[2].target_addr(), 0xBB);
}

#[test]
fn test_page_span_single_page() {
    let span = page_span(0x1234, 5, 0x1000);
    assert_eq!(span.start, 0x1000);
    assert_eq!(span.len, 0x1000);
}

#[test]
fn test_page_span_straddles_boundary() {
    let span = page_span(0x1FFE, 5, 0x1000);
    assert_eq!(span.start, 0x1000);
    assert_eq!(span.len, 0x2000);
}

#[test]
fn test_atomic_splice_word() {
    let current = vec![0x10, 0x11, 0x12, 0x13, 0x14, 0x15, 0x16, 0x17];
    let data = vec![0xAA, 0xBB, 0xCC, 0xDD, 0xEE];
    let word = x86_64::arch_atomic_splice_word(&current, &data, 2);
    assert_eq!(word, vec![0x10, 0x11, 0xAA, 0xBB, 0xCC, 0xDD, 0xEE, 0x17]);
}

#[test]
fn test_write_code_sync_equals_plain_write() {
    let data = vec![0xE9, 0x01, 0x02, 0x03, 0x04];
    let mut plain = ArchCodeManipulator::new(0x4000, (0u8..0x40).collect());
    plain.write_code(0x4010, &data);
    let mut synced = ArchCodeManipulator::new(0x4000, (0u8..0x40).collect());
    synced.write_code_sync(0x4010, &data);
    for i in 0..0x40usize {
        assert_eq!(plain.read_byte(0x4000 + i), synced.read_byte(0x4000 + i));
    }
}

#[test]
fn test_evaluate_branch_reads_the_instruction() {
    let site = JumpEntry::new(0x4000, 0x4020, 0x101);
    let mut buf = ArchCodeManipulator::new(0x4000, vec![0u8; 0x40]);
    // Neither NOP nor jump yet: the site falls through to the likely branch.
    assert!(buf.evaluate_branch(&site, Arch::X86_64));
    let jump = x86_64::arch_jump_entry_instruction(JumpLabelType::Jmp, &site);
    buf.write_code(0x4000, &jump);
    // The jump diverts to the unlikely branch.
    assert!(!buf.evaluate_branch(&site, Arch::X86_64));
}
