//! Tile and chunk coordinates of the endless map.

use vstd::prelude::*;
use vstd::arithmetic::div_mod::{lemma_fundamental_div_mod, lemma_fundamental_div_mod_converse_mod, lemma_fundamental_div_mod_converse_div};

verus! {

/// World units per tile side.
pub const TILE: i64 = 40;

/// Side length of a streaming chunk, in tiles.
pub const CHUNK: i32 = 20;

/// Number of tiles in one chunk (`CHUNK * CHUNK`).
pub const CHUNK_CELLS: usize = 400;

/// Chunks kept loaded out from the player's chunk: a (2R+1)^2 window.
pub const CHUNK_R: i32 = 2;

/// Chunk key of the chunk that holds global tile column/row `g`.
pub open spec fn chunk_of(g: int) -> int {
    g / (CHUNK as int)
}

/// Position of global tile column/row `g` inside its chunk (0..CHUNK).
pub open spec fn local_of(g: int) -> int {
    g % (CHUNK as int)
}

/// Row-major index of a local tile inside a chunk's cell array.
pub open spec fn local_index(lx: int, ly: int) -> int {
    ly * (CHUNK as int) + lx
}

/// Split a global tile column (or row) into its chunk key and its offset
/// within that chunk.
pub fn split_coord(g: i32) -> (res: (i32, i32))
    ensures
        res.0 == chunk_of(g as int),
        res.1 == local_of(g as int),
        0 <= res.1 < CHUNK,
{
    let c = match g.checked_div_euclid(CHUNK) {
        Some(v) => v,
        None => 0,
    };
    let l = match g.checked_rem_euclid(CHUNK) {
        Some(v) => v,
        None => 0,
    };
    (c, l)
}

/// Global tile → (chunk key, local row-major index within that chunk).
pub fn tile_to_chunk(gc: i32, gr: i32) -> (res: ((i32, i32), usize))
    ensures
        res.0.0 == chunk_of(gc as int),
        res.0.1 == chunk_of(gr as int),
        res.1 == local_index(local_of(gc as int), local_of(gr as int)),
        res.1 < CHUNK_CELLS,
{
    let (cx, lx) = split_coord(gc);
    let (cy, ly) = split_coord(gr);
    let idx = (ly as usize) * 20 + lx as usize;
    ((cx, cy), idx)
}

/// Global tile of local tile (`lx`, `ly`) in chunk (`cx`, `cy`).
pub open spec fn global_of(c: int, l: int) -> int {
    c * (CHUNK as int) + l
}

/// Every global tile column/row is its chunk's origin plus its local offset,
/// and the local offset lies in `0..CHUNK`.
pub proof fn lemma_tile_decomposes(g: int)
    ensures
        g == global_of(chunk_of(g), local_of(g)),
        0 <= local_of(g) < CHUNK,
{
    lemma_fundamental_div_mod(g, 20);
}

/// Going from (chunk, local offset) to a global tile and back gives the same
/// chunk and offset: chunks tile the map without overlap.
pub proof fn lemma_chunk_roundtrip(c: int, l: int)
    requires
        0 <= l < CHUNK,
    ensures
        chunk_of(global_of(c, l)) == c,
        local_of(global_of(c, l)) == l,
{
    lemma_fundamental_div_mod_converse_div(c * 20 + l, 20, c, l);
    lemma_fundamental_div_mod_converse_mod(c * 20 + l, 20, c, l);
}

} // verus!
