//! Per-cell 64-bit digests and their order-independent combination.
//!
//! Each cell's three byte coordinates are packed into one word and driven
//! through a fixed avalanche mixer; a shape's digest under one coordinate
//! frame is the bitwise exclusive-or of its cells' digests, so it does not
//! depend on the order in which the cells are stored.

use vstd::prelude::*;
use crate::model::{c3, Coord, CoordV};

verus! {

/// The modulus of 64-bit machine arithmetic.
pub open spec fn two_64() -> int {
    0x1_0000_0000_0000_0000
}

/// 64-bit truncating product.
pub open spec fn mul_64(a: u64, b: u64) -> u64 {
    ((a * b) % two_64()) as u64
}

/// 64-bit truncating sum.
pub open spec fn add_64(a: u64, b: u64) -> u64 {
    ((a + b) % two_64()) as u64
}

/// The fixed avalanche mixer on one 64-bit word: alternating truncating
/// multiplications by odd constants and xor-shifts.
pub open spec fn mix(x: u64) -> u64 {
    let a = add_64(x, 0x9e3779b97f4a7c15);
    let b = mul_64(a ^ (a >> 30), 0xbf58476d1ce4e5b9);
    let c = mul_64(b ^ (b >> 27), 0x94d049bb133111eb);
    c ^ (c >> 31)
}

/// A cell's coordinates packed into one word, one byte per axis.
/// Meaningful for components in `0..=255`.
pub open spec fn pack(c: CoordV) -> u64 {
    (c.0 + c.1 * 0x100 + c.2 * 0x1_0000) as u64
}

/// The digest of one cell.
pub open spec fn cell_digest(c: CoordV) -> u64 {
    mix(pack(c))
}

/// The digest of a cell sequence: the xor of its cells' digests.
pub open spec fn xor_digest(cells: Seq<CoordV>) -> u64
    decreases cells.len(),
{
    if cells.len() == 0 {
        0u64
    } else {
        xor_digest(cells.drop_last()) ^ cell_digest(cells.last())
    }
}

/// The mixer, executably.
pub fn mix_word(x: u64) -> (r: u64)
    ensures
        r == mix(x),
{
    let a = (((x as u128) + 0x9e3779b97f4a7c15u128) % 0x1_0000_0000_0000_0000u128) as u64;
    let a2 = a ^ (a >> 30);
    let b = (((a2 as u128) * 0xbf58476d1ce4e5b9u128) % 0x1_0000_0000_0000_0000u128) as u64;
    let b2 = b ^ (b >> 27);
    let c = (((b2 as u128) * 0x94d049bb133111ebu128) % 0x1_0000_0000_0000_0000u128) as u64;
    c ^ (c >> 31)
}

/// The digest of one cell, executably.
pub fn cell_digest_word(c: Coord) -> (r: u64)
    ensures
        r == cell_digest(c3(c)),
{
    let packed: u64 = (c.0 as u64) + (c.1 as u64) * 0x100 + (c.2 as u64) * 0x1_0000;
    assert(packed == pack(c3(c)));
    mix_word(packed)
}

/// The xor of the digests of all coordinates in `coords`.  The result is
/// independent of the order of the coordinates; this function fixes one
/// evaluation order and the specification mirrors it.
pub fn hash_coords(coords: &Vec<Coord>) -> (h: u64)
    ensures
        h == xor_digest(coords@.map_values(|c: Coord| c3(c))),
{
    let ghost cellsv = coords@.map_values(|c: Coord| c3(c));
    let mut h: u64 = 0;
    let mut k: usize = 0;
    while k < coords.len()
        invariant
            0 <= k <= coords@.len(),
            cellsv == coords@.map_values(|c: Coord| c3(c)),
            h == xor_digest(cellsv.take(k as int)),
        decreases coords@.len() - k,
    {
        let d = cell_digest_word(coords[k]);
        proof {
            assert(cellsv.take(k + 1).drop_last() =~= cellsv.take(k as int));
            assert(cellsv.take(k + 1).last() == c3(coords@[k as int]));
        }
        h = h ^ d;
        k += 1;
    }
    proof {
        assert(cellsv.take(coords@.len() as int) =~= cellsv);
    }
    h
}

} // verus!
