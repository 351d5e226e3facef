//! Page arithmetic shared by the protection-flipping patchers.
//!
//! A patch touches a handful of bytes, but memory protection is granted per
//! page: the patcher must align the patched range down to its page and
//! cover one page, or two when the range straddles a page boundary.

use vstd::prelude::*;

verus! {

/// A page-aligned span of memory covering a patched byte range.
pub struct PageSpan {
    /// First address of the span; a multiple of the page size.
    pub start: usize,
    /// Length of the span: one or two pages.
    pub len: usize,
}

/// The page-aligned span that covers `len` bytes at `addr`: the containing
/// page, or that page and the next when the range crosses into it.
pub fn page_span(addr: usize, len: usize, page_size: usize) -> (r: PageSpan)
    requires
        0 < page_size,
        len <= page_size,
        addr + len <= usize::MAX,
        2 * page_size <= usize::MAX,
    ensures
        r.start as int == addr - (addr as int % page_size as int),
        r.start as int % page_size as int == 0,
        r.len as int == (if addr as int % page_size as int + len > page_size {
            2 * page_size as int
        } else {
            page_size as int
        }),
        r.start <= addr,
        addr + len <= r.start as int + r.len,
{
    proof {
        vstd::arithmetic::div_mod::lemma_fundamental_div_mod(addr as int, page_size as int);
        vstd::arithmetic::div_mod::lemma_mod_bound(addr as int, page_size as int);
        assert(addr as int / page_size as int * page_size as int == addr as int - addr as int
            % page_size as int)
            by (nonlinear_arith)
            requires
                0 < page_size as int,
        ;
        assert((addr as int / page_size as int) * page_size as int % page_size as int == 0)
            by (nonlinear_arith)
            requires
                0 < page_size as int,
        ;
    }
    let aligned: usize = addr / page_size * page_size;
    let span: usize = if addr - aligned + len > page_size {
        2 * page_size
    } else {
        page_size
    };
    PageSpan { start: aligned, len: span }
}

/// Offset of `addr` inside a span that starts at or before it: where the
/// patched bytes land inside a scratch copy of the span.
pub fn offset_in_span(addr: usize, span_start: usize) -> (r: usize)
    requires
        span_start <= addr,
    ensures
        r == addr - span_start,
{
    addr - span_start
}

} // verus!
