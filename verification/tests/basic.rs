//! Toggling scenarios: keys, branch sites, initialization and the update
//! traversal, against an owned code buffer.

use static_keys::arch::Arch;
use static_keys::global_init;
use static_keys::jump_entries_count;
use static_keys::jump_entry::JUMP_ENTRY_BYTES;
use static_keys::jump_entry::JumpEntry;
use static_keys::jump_entry::JumpEntryTable;
use static_keys::jump_entry::OffsetWidth;
use static_keys::jump_entry_update;
use static_keys::new_static_false_key;
use static_keys::new_static_true_key;
use static_keys::os::none::ArchCodeManipulator;
use static_keys::InitState;
use static_keys::KeyRegistry;

const ARCH: Arch = Arch::X86_64;
const TABLE_START: usize = 0x10000;
const KEY_TRUE_ADDR: usize = 0x100;
const KEY_FALSE_ADDR: usize = 0x108;
const BUF_BASE: usize = 0x4000;
const BUF_LEN: usize = 0x100;

// The four branch sites: (code, target, key field with likely tag).
const TRUE_LIKELY: (usize, usize, usize) = (0x4000, 0x4020, KEY_TRUE_ADDR | 1);
const TRUE_UNLIKELY: (usize, usize, usize) = (0x4010, 0x4030, KEY_TRUE_ADDR);
const FALSE_LIKELY: (usize, usize, usize) = (0x4040, 0x4060, KEY_FALSE_ADDR | 1);
const FALSE_UNLIKELY: (usize, usize, usize) = (0x4050, 0x4070, KEY_FALSE_ADDR);

/// A descriptor as the build tooling stores it: each field relative to the
/// field's own storage address.
fn rel_entry(index: usize, site: (usize, usize, usize)) -> JumpEntry {
    let base = TABLE_START + index * JUMP_ENTRY_BYTES;
    JumpEntry::new(
        site.0.wrapping_sub(base),
        site.1.wrapping_sub(base + 8),
        site.2.wrapping_sub(base + 16),
    )
}

/// The descriptor in resolved form, as the update engine and the branch
/// evaluation see it.
fn abs_entry(site: (usize, usize, usize)) -> JumpEntry {
    JumpEntry::new(site.0, site.1, site.2)
}

/// Build the world: a scrambled descriptor table with a sentinel, the two
/// keys, and a code buffer holding each site's initial instruction.
fn setup_world() -> (JumpEntryTable, KeyRegistry, ArchCodeManipulator) {
    let entries = vec![
        JumpEntry::dummy(),
        rel_entry(1, FALSE_UNLIKELY),
        rel_entry(2, TRUE_LIKELY),
        rel_entry(3, FALSE_LIKELY),
        rel_entry(4, TRUE_UNLIKELY),
    ];
    let mut table = JumpEntryTable::new(TABLE_START, entries);
    let mut reg = KeyRegistry::new();
    reg.register(KEY_TRUE_ADDR, new_static_true_key());
    reg.register(KEY_FALSE_ADDR, new_static_false_key());
    let mut state = InitState::Uninitialized;
    global_init(&mut state, &mut table, &mut reg, OffsetWidth::Native);
    assert_eq!(state, InitState::Initialized);

    // The build layer lays every site out for its key's initial value.
    let mut buf = ArchCodeManipulator::new(BUF_BASE, vec![0u8; BUF_LEN]);
    jump_entry_update(&abs_entry(TRUE_LIKELY), true, ARCH, &mut buf);
    jump_entry_update(&abs_entry(TRUE_UNLIKELY), true, ARCH, &mut buf);
    jump_entry_update(&abs_entry(FALSE_LIKELY), false, ARCH, &mut buf);
    jump_entry_update(&abs_entry(FALSE_UNLIKELY), false, ARCH, &mut buf);
    (table, reg, buf)
}

fn eval(buf: &ArchCodeManipulator, site: (usize, usize, usize)) -> usize {
    if buf.evaluate_branch(&abs_entry(site), ARCH) {
        1
    } else {
        2
    }
}

fn true_likely(buf: &ArchCodeManipulator) -> usize {
    eval(buf, TRUE_LIKELY)
}

fn true_unlikely(buf: &ArchCodeManipulator) -> usize {
    eval(buf, TRUE_UNLIKELY)
}

fn false_likely(buf: &ArchCodeManipulator) -> usize {
    eval(buf, FALSE_LIKELY)
}

fn false_unlikely(buf: &ArchCodeManipulator) -> usize {
    eval(buf, FALSE_UNLIKELY)
}

#[test]
fn test_true_key() {
    let (table, reg, mut buf) = setup_world();
    let mut key = reg.get(KEY_TRUE_ADDR).unwrap();

    assert_eq!(true_likely(&buf), 1);
    assert_eq!(true_unlikely(&buf), 1);
    key.disable(KEY_TRUE_ADDR, &table, ARCH, &mut buf);
    assert_eq!(true_likely(&buf), 2);
    assert_eq!(true_unlikely(&buf), 2);
    key.enable(KEY_TRUE_ADDR, &table, ARCH, &mut buf);
    assert_eq!(true_likely(&buf), 1);
    assert_eq!(true_unlikely(&buf), 1);
}

#[test]
fn test_false_key() {
    let (table, reg, mut buf) = setup_world();
    let mut key = reg.get(KEY_FALSE_ADDR).unwrap();

    assert_eq!(false_likely(&buf), 2);
    assert_eq!(false_unlikely(&buf), 2);
    key.enable(KEY_FALSE_ADDR, &table, ARCH, &mut buf);
    assert_eq!(false_likely(&buf), 1);
    assert_eq!(false_unlikely(&buf), 1);
    key.disable(KEY_FALSE_ADDR, &table, ARCH, &mut buf);
    assert_eq!(false_likely(&buf), 2);
    assert_eq!(false_unlikely(&buf), 2);
}

#[test]
fn test_toggling_one_key_leaves_the_other_alone() {
    let (table, reg, mut buf) = setup_world();
    let mut key_true = reg.get(KEY_TRUE_ADDR).unwrap();
    let mut key_false = reg.get(KEY_FALSE_ADDR).unwrap();

    key_true.disable(KEY_TRUE_ADDR, &table, ARCH, &mut buf);
    assert_eq!(false_likely(&buf), 2);
    assert_eq!(false_unlikely(&buf), 2);
    key_false.enable(KEY_FALSE_ADDR, &table, ARCH, &mut buf);
    assert_eq!(true_likely(&buf), 2);
    assert_eq!(true_unlikely(&buf), 2);
    key_true.enable(KEY_TRUE_ADDR, &table, ARCH, &mut buf);
    assert_eq!(false_likely(&buf), 1);
    assert_eq!(false_unlikely(&buf), 1);
}

#[test]
fn test_redundant_toggle_rewrites_nothing() {
    let (table, reg, mut buf) = setup_world();
    let mut key = reg.get(KEY_TRUE_ADDR).unwrap();

    key.disable(KEY_TRUE_ADDR, &table, ARCH, &mut buf);
    let image: Vec<u8> = (0..BUF_LEN).map(|i| buf.read_byte(BUF_BASE + i)).collect();
    // Same request again: identical machine code afterwards.
    key.disable(KEY_TRUE_ADDR, &table, ARCH, &mut buf);
    let image_after: Vec<u8> = (0..BUF_LEN).map(|i| buf.read_byte(BUF_BASE + i)).collect();
    assert_eq!(image, image_after);
}

#[test]
fn test_unreferenced_key_toggles_without_patching() {
    let unused_addr: usize = 0x118;
    let entries = vec![JumpEntry::dummy(), rel_entry(1, TRUE_LIKELY)];
    let mut table = JumpEntryTable::new(TABLE_START, entries);
    let mut reg = KeyRegistry::new();
    reg.register(KEY_TRUE_ADDR, new_static_true_key());
    reg.register(unused_addr, new_static_false_key());
    let mut state = InitState::Uninitialized;
    global_init(&mut state, &mut table, &mut reg, OffsetWidth::Native);

    let mut unused = reg.get(unused_addr).unwrap();
    assert_eq!(unused.entries(), 0);

    let mut buf = ArchCodeManipulator::new(BUF_BASE, vec![0u8; BUF_LEN]);
    jump_entry_update(&abs_entry(TRUE_LIKELY), true, ARCH, &mut buf);
    let image: Vec<u8> = (0..BUF_LEN).map(|i| buf.read_byte(BUF_BASE + i)).collect();

    // A key never referenced by a branch patches nothing and does not panic.
    unused.enable(unused_addr, &table, ARCH, &mut buf);
    unused.disable(unused_addr, &table, ARCH, &mut buf);
    let image_after: Vec<u8> = (0..BUF_LEN).map(|i| buf.read_byte(BUF_BASE + i)).collect();
    assert_eq!(image, image_after);
}

#[test]
fn test_global_init_sorts_and_links() {
    let (table, reg, _) = setup_world();

    assert_eq!(jump_entries_count(&table), 5);
    // Sorted by (key address, code address): the sentinel first, then the
    // true key's sites, then the false key's sites.
    let resolved: Vec<(usize, usize, bool)> = table
        .entries
        .iter()
        .map(|e| (e.key_addr(), e.code_addr(), e.is_dummy()))
        .collect();
    assert_eq!(resolved[0].2, true);
    assert_eq!(resolved[1], (KEY_TRUE_ADDR, 0x4000, false));
    assert_eq!(resolved[2], (KEY_TRUE_ADDR, 0x4010, false));
    assert_eq!(resolved[3], (KEY_FALSE_ADDR, 0x4040, false));
    assert_eq!(resolved[4], (KEY_FALSE_ADDR, 0x4050, false));
    // Each key holds the address of its first descriptor.
    let key_true = reg.get(KEY_TRUE_ADDR).unwrap();
    let key_false = reg.get(KEY_FALSE_ADDR).unwrap();
    assert_eq!(key_true.entries(), TABLE_START + JUMP_ENTRY_BYTES);
    assert_eq!(key_false.entries(), TABLE_START + 3 * JUMP_ENTRY_BYTES);
    // Targets resolved to the absolute addresses the build layer encoded.
    assert_eq!(table.entries[1].target_addr(), 0x4020);
    assert_eq!(table.entries[2].target_addr(), 0x4030);
}

#[test]
fn test_global_init_is_idempotent() {
    let (mut table, mut reg, _) = setup_world();
    let snapshot_entries = table.entries.clone();
    let true_before = reg.get(KEY_TRUE_ADDR).unwrap();
    let false_before = reg.get(KEY_FALSE_ADDR).unwrap();

    // Re-entrant call after completion: a no-op.
    let mut state = InitState::Initialized;
    global_init(&mut state, &mut table, &mut reg, OffsetWidth::Native);
    assert_eq!(state, InitState::Initialized);
    assert_eq!(table.entries, snapshot_entries);
    assert_eq!(reg.get(KEY_TRUE_ADDR).unwrap(), true_before);
    assert_eq!(reg.get(KEY_FALSE_ADDR).unwrap(), false_before);
}

#[test]
fn test_init_with_linker_truncated_offsets() {
    // Offsets as a linker that truncates them to 32 bits would store them.
    let base = TABLE_START + JUMP_ENTRY_BYTES;
    let stored = |abs: usize, field: usize| -> usize { abs.wrapping_sub(field) as u32 as usize };
    let entries = vec![
        JumpEntry::dummy(),
        JumpEntry::new(
            stored(TRUE_LIKELY.0, base),
            stored(TRUE_LIKELY.1, base + 8),
            stored(TRUE_LIKELY.2, base + 16),
        ),
    ];
    let mut table = JumpEntryTable::new(TABLE_START, entries);
    let mut reg = KeyRegistry::new();
    reg.register(KEY_TRUE_ADDR, new_static_true_key());
    let mut state = InitState::Uninitialized;
    global_init(&mut state, &mut table, &mut reg, OffsetWidth::Truncated32);

    assert_eq!(table.entries[1].code_addr(), TRUE_LIKELY.0);
    assert_eq!(table.entries[1].target_addr(), TRUE_LIKELY.1);
    assert_eq!(table.entries[1].key_addr(), KEY_TRUE_ADDR);
    assert_eq!(reg.get(KEY_TRUE_ADDR).unwrap().entries(), base);
}

#[test]
fn test_empty_table_initializes() {
    let mut table = JumpEntryTable::new(TABLE_START, Vec::new());
    let mut reg = KeyRegistry::new();
    reg.register(KEY_TRUE_ADDR, new_static_true_key());
    let mut state = InitState::Uninitialized;
    global_init(&mut state, &mut table, &mut reg, OffsetWidth::Native);
    assert_eq!(state, InitState::Initialized);
    assert_eq!(jump_entries_count(&table), 0);
    assert_eq!(reg.get(KEY_TRUE_ADDR).unwrap().entries(), 0);
}

#[test]
fn test_initial_enabled_reflects_construction() {
    assert_eq!(new_static_true_key().initial_enabled(), true);
    assert_eq!(new_static_false_key().initial_enabled(), false);
}
