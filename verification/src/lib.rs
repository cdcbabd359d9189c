//! A guest-side memory and value-marshaling layer for a module that exchanges
//! structured data with a host process across a byte-oriented boundary.
//!
//! The host and the guest share one linear address space; the host only ever
//! sees numeric offsets into it. The library models that address space as a
//! byte store with a verified allocator adapter on top ([`memory::Memory`]),
//! and a typed, ownership-aware handle ([`handle::WRef`]) that reinterprets an
//! offset as a scalar, a fixed-length array, a variable-length array or a
//! UTF-8 string.

use vstd::prelude::*;

pub mod catalog;
pub mod handle;
pub mod memory;
pub mod wire;
pub mod word;

verus! {

/// Alignment, in bytes, of the start of every allocated block.
///
/// One process-wide constant applied to every block regardless of payload
/// type: a single uniform code path keeps the boundary simple.
pub const ALIGNMENT: usize = 32;

/// Width, in bytes, of the size header that precedes every allocated block.
pub const HEADER_WIDTH: usize = 4;

} // verus!
