//! Assembler for a small fixed-width 8-bit instruction set, producing a
//! 128-byte ROM image, together with the spatial layout codec that turns the
//! image into an ordered sequence of placement commands (one per bit) at
//! deterministic 3D coordinates.

pub mod codec;
pub mod emit;
pub mod encoder;
pub mod rom;

use vstd::prelude::*;

verus! {

/// Capacity of the ROM image in bytes; source line `i` maps to byte `i`.
pub const ROM_BYTES: usize = 128;

} // verus!
