//! Code-memory manipulation: the interface every patcher provides, and the
//! specification of what one patch does to the code image.
//!
//! A manipulator owns a view of code memory as a map from address to byte.
//! Writing instruction bytes must make exactly those bytes visible at the
//! written range and leave every other address untouched; how a concrete
//! patcher arranges that (protection flips, remapping, cache maintenance) is
//! its own business.

use vstd::prelude::*;

verus! {

/// The code image after `data` is written at `addr`: the written range holds
/// `data`, every other address keeps its old byte.
pub open spec fn write_bytes(m: Map<int, u8>, addr: int, data: Seq<u8>) -> Map<int, u8> {
    Map::new(
        |a: int| m.dom().contains(a) || (addr <= a < addr + data.len()),
        |a: int|
            if addr <= a < addr + data.len() {
                data[a - addr]
            } else {
                m[a]
            },
    )
}

/// The code image holds exactly `data` at `addr`.
pub open spec fn mem_has_bytes(m: Map<int, u8>, addr: int, data: Seq<u8>) -> bool {
    forall|a: int|
        addr <= a < addr + data.len() ==> #[trigger] m.dom().contains(a) && m[a] == data[a - addr]
}

/// What one write changes and what it keeps.
pub proof fn lemma_write_bytes_effect(m: Map<int, u8>, addr: int, data: Seq<u8>)
    ensures
        mem_has_bytes(write_bytes(m, addr, data), addr, data),
        forall|a: int|
            !(addr <= a < addr + data.len()) ==> (#[trigger] write_bytes(m, addr, data).dom().contains(a)
                <==> m.dom().contains(a)),
        forall|a: int|
            !(addr <= a < addr + data.len()) && m.dom().contains(a) ==> #[trigger] write_bytes(
                m,
                addr,
                data,
            )[a] == m[a],
{
}

/// Two code images that agree on a range hold the same bytes there.
pub proof fn lemma_mem_has_bytes_agree(m1: Map<int, u8>, m2: Map<int, u8>, addr: int, data: Seq<u8>)
    requires
        forall|a: int|
            addr <= a < addr + data.len() ==> (#[trigger] m1.dom().contains(a) <==> m2.dom().contains(
                a,
            )) && (m1.dom().contains(a) ==> m1[a] == m2[a]),
    ensures
        mem_has_bytes(m1, addr, data) == mem_has_bytes(m2, addr, data),
{
    if mem_has_bytes(m1, addr, data) {
        assert forall|a: int| addr <= a < addr + data.len() implies #[trigger] m2.dom().contains(a)
            && m2[a] == data[a - addr] by {
            assert(m1.dom().contains(a) && m1[a] == data[a - addr]);
        }
    }
    if mem_has_bytes(m2, addr, data) {
        assert forall|a: int| addr <= a < addr + data.len() implies #[trigger] m1.dom().contains(a)
            && m1[a] == data[a - addr] by {
            assert(m2.dom().contains(a) && m2[a] == data[a - addr]);
        }
    }
}

/// Manipulate memory protection in a code region and write instruction
/// bytes into it.
///
/// Toggling a static key rewrites instructions that live in a normally
/// non-writable code region, so a patcher must make the region writable by
/// some means, perform the write, and make the new bytes visible to
/// instruction fetch.  `code_mem` is the patcher's view of the code image
/// and `can_write` says which ranges it may patch.
pub trait CodeManipulator: Sized {
    /// The code image this manipulator writes to.
    spec fn code_mem(&self) -> Map<int, u8>;

    /// Whether the byte range `[addr, addr + len)` may be patched.
    spec fn can_write(&self, addr: int, len: int) -> bool;

    /// Write `data` as code instruction bytes at `addr`.
    fn write_code(&mut self, addr: usize, data: &Vec<u8>)
        requires
            old(self).can_write(addr as int, data@.len() as int),
        ensures
            final(self).code_mem() == write_bytes(old(self).code_mem(), addr as int, data@),
            forall|a: int, l: int| #[trigger] final(self).can_write(a, l) <==> old(self).can_write(
                a,
                l,
            );
}

/// A manipulator that can additionally patch with a single aligned
/// word-sized store, so that cores concurrently fetching the patched
/// instruction never observe a torn write.
pub trait SyncCodeManipulator: CodeManipulator {
    /// Write `data` at `addr` with one aligned atomic word store.  The
    /// written bytes must lie inside a single aligned 8-byte word, and the
    /// whole word is stored, so the word's range must be patchable.
    fn write_code_sync(&mut self, addr: usize, data: &Vec<u8>)
        requires
            old(self).can_write(addr as int - addr as int % 8, 8),
            addr as int % 8 + data@.len() <= 8,
        ensures
            final(self).code_mem() == write_bytes(old(self).code_mem(), addr as int, data@),
            forall|a: int, l: int| #[trigger] final(self).can_write(a, l) <==> old(self).can_write(
                a,
                l,
            );
}

/// Dummy code manipulator: discards every write, tracking the would-be code
/// image only in ghost state.  Used for a sentinel static key that is never
/// toggled.
pub struct DummyCodeManipulator {
    /// The code image the discarded writes would have produced.
    pub image: Ghost<Map<int, u8>>,
}

impl CodeManipulator for DummyCodeManipulator {
    open spec fn code_mem(&self) -> Map<int, u8> {
        self.image@
    }

    open spec fn can_write(&self, addr: int, len: int) -> bool {
        true
    }

    fn write_code(&mut self, addr: usize, data: &Vec<u8>) {
        let ghost next = write_bytes(self.image@, addr as int, data@);
        self.image = Ghost(next);
    }
}

} // verus!
