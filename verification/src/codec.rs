//! Spatial ROM layout codec: the deterministic, invertible mapping from a
//! linear (byte index, bit index) pair to a 3D coordinate, and the expansion
//! of a complete 128-byte image into its ordered sequence of placement
//! commands, one per bit, in byte-then-bit order.
//!
//! The image's 128 bytes form a grid of 4 rows by 32 columns, traversed
//! row-major so that `row * 32 + column` is the linear byte index. Each row
//! maps to a Y coordinate, each column to an X coordinate, and each bit
//! position within a byte (most-significant first) to a Z coordinate. The
//! strides and offsets are a fixed physical schema: grid spacing in the
//! target environment; changing any of them invalidates every previously
//! placed structure.

use vstd::prelude::*;
use crate::ROM_BYTES;

verus! {

/// Columns per row of the physical grid.
pub const SIZE_X: usize = 32;

/// Rows of the physical grid.
pub const SIZE_Y: usize = 4;

/// X distance between adjacent columns.
pub const STRIDE_X: isize = -2;

/// X coordinate of column 0.
pub const OFFSET_X: isize = -2;

/// Y distance between adjacent rows.
pub const STRIDE_Y: isize = 4;

/// Y coordinate of row 0.
pub const OFFSET_Y: isize = -15;

/// Z distance between adjacent bit positions.
pub const STRIDE_Z: isize = -2;

/// Z coordinate of bit position 0 (the most significant bit).
pub const OFFSET_Z: isize = 0;

/// One placement command: mark present (`set`) or absent at a coordinate.
#[derive(Clone, Copy, Debug, PartialEq, Eq, Structural)]
pub struct Placement {
    pub x: isize,
    pub y: isize,
    pub z: isize,
    pub set: bool,
}

/// The X coordinate of grid column `col`.
pub open spec fn spec_x(col: int) -> int {
    col * (STRIDE_X as int) + (OFFSET_X as int)
}

/// The Y coordinate of grid row `row`.
pub open spec fn spec_y(row: int) -> int {
    row * (STRIDE_Y as int) + (OFFSET_Y as int)
}

/// The Z coordinate of bit position `m` (0 = most significant bit).
pub open spec fn spec_z(m: int) -> int {
    m * (STRIDE_Z as int) + (OFFSET_Z as int)
}

/// The 3D coordinate of bit position `m` of image byte `b`.
pub open spec fn spec_coord(b: int, m: int) -> (int, int, int) {
    (spec_x(b % (SIZE_X as int)), spec_y(b / (SIZE_X as int)), spec_z(m))
}

/// Bit `m` of a byte, counting from the most significant bit (`m` = 0).
pub open spec fn spec_bit(byte: u8, m: int) -> bool {
    (byte >> ((7 - m) as u8)) & 1 == 1
}

/// Computes the 3D coordinate of bit position `m` of image byte `b`.
pub fn coord_of(b: usize, m: usize) -> (r: (isize, isize, isize))
    requires
        b < ROM_BYTES,
        m < 8,
    ensures
        r.0 == spec_coord(b as int, m as int).0,
        r.1 == spec_coord(b as int, m as int).1,
        r.2 == spec_coord(b as int, m as int).2,
{
    let col = b % SIZE_X;
    let row = b / SIZE_X;
    let x = (col as isize) * STRIDE_X + OFFSET_X;
    let y = (row as isize) * STRIDE_Y + OFFSET_Y;
    let z = (m as isize) * STRIDE_Z + OFFSET_Z;
    (x, y, z)
}

/// The placement command of linear bit index `k` of an image: byte `k / 8`,
/// bit `k % 8` (most-significant first).
pub open spec fn spec_placement(img: Seq<u8>, k: int) -> Placement
    recommends
        img.len() == ROM_BYTES,
        0 <= k < 8 * ROM_BYTES,
{
    let b = k / 8;
    let m = k % 8;
    Placement {
        x: spec_coord(b, m).0 as isize,
        y: spec_coord(b, m).1 as isize,
        z: spec_coord(b, m).2 as isize,
        set: spec_bit(img[b], m),
    }
}

/// The full ordered command sequence of an image: 1024 commands, one per
/// bit, in byte-then-bit order.
pub open spec fn spec_layout(img: Seq<u8>) -> Seq<Placement>
    recommends
        img.len() == ROM_BYTES,
{
    Seq::new((8 * ROM_BYTES) as nat, |k: int| spec_placement(img, k))
}

/// Expands a complete ROM image into its ordered sequence of placement
/// commands: one command per bit, bytes in linear order, bits within each
/// byte most-significant first.
pub fn layout(image: &Vec<u8>) -> (r: Vec<Placement>)
    requires
        image@.len() == ROM_BYTES,
    ensures
        r@ == spec_layout(image@),
{
    let mut r: Vec<Placement> = Vec::new();
    let mut k: usize = 0;
    while k < 8 * ROM_BYTES
        invariant
            image@.len() == ROM_BYTES,
            k <= 8 * ROM_BYTES,
            r@.len() == k,
            forall|j: int| 0 <= j < k ==> r@[j] == spec_placement(image@, j),
        decreases 8 * ROM_BYTES - k,
    {
        let b = k / 8;
        let m = k % 8;
        let (x, y, z) = coord_of(b, m);
        let byte = image[b];
        let set = (byte >> ((7 - m) as u8)) & 1 == 1;
        r.push(Placement { x, y, z, set });
        k = k + 1;
    }
    proof {
        assert(r@ =~= spec_layout(image@));
    }
    r
}

/// The codec is a pure function of the image: images equal byte for byte
/// yield identical, identically ordered command sequences.
pub proof fn lemma_layout_deterministic(a: Seq<u8>, b: Seq<u8>)
    requires
        a =~= b,
    ensures
        spec_layout(a) == spec_layout(b),
{
}

/// No two distinct (byte index, bit index) pairs collide on the same
/// coordinate, so each physical position is driven exactly once.
pub proof fn lemma_coord_injective(b1: int, m1: int, b2: int, m2: int)
    requires
        0 <= b1 < ROM_BYTES,
        0 <= m1 < 8,
        0 <= b2 < ROM_BYTES,
        0 <= m2 < 8,
        spec_coord(b1, m1) == spec_coord(b2, m2),
    ensures
        b1 == b2,
        m1 == m2,
{
    let c1 = b1 % 32;
    let r1 = b1 / 32;
    let c2 = b2 % 32;
    let r2 = b2 / 32;
    assert(spec_x(c1) == spec_x(c2));
    assert(spec_y(r1) == spec_y(r2));
    assert(spec_z(m1) == spec_z(m2));
    assert(c1 == c2) by {
        assert(c1 * -2 == c2 * -2);
    }
    assert(r1 == r2) by {
        assert(r1 * 4 == r2 * 4);
    }
    assert(m1 == m2) by {
        assert(m1 * -2 == m2 * -2);
    }
    assert(b1 == r1 * 32 + c1) by {
        vstd::arithmetic::div_mod::lemma_fundamental_div_mod(b1, 32);
    }
    assert(b2 == r2 * 32 + c2) by {
        vstd::arithmetic::div_mod::lemma_fundamental_div_mod(b2, 32);
    }
}

} // verus!
