//! OS-facing pieces of the patching engine.
//!
//! Flipping a code page's protection, remapping it, and flushing caches are
//! system calls; what can be settled here is the arithmetic every such
//! patcher shares (`page`) and the patcher for environments where code
//! memory is directly writable (`none`).

pub mod none;
pub mod page;
