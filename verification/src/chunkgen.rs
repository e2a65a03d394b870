//! Deterministic per-chunk generation of wall cells and prop colliders.

use vstd::prelude::*;
use vstd::arithmetic::div_mod::{lemma_fundamental_div_mod, lemma_fundamental_div_mod_converse_mod, lemma_fundamental_div_mod_converse_div};
use crate::grid::{TILE, CHUNK, CHUNK_CELLS, chunk_of, global_of, local_of, local_index, split_coord, lemma_chunk_roundtrip, lemma_tile_decomposes};
use crate::props::{Prop, PropKind, lemma_only_bushes_passable, prop_spec, prop_kinds, prop_target, spec_prop_spec, scene_kinds, scene_prop_target};
use crate::rng::{Draw, SeededRng, chance, next_u32, range_i32, range_u64, seeded_chance, seeded_i32, seeded_next_u32, seeded_u64};
use crate::scene::Scene;

verus! {

/// One tile of a chunk.
#[derive(Clone, Copy, PartialEq, Eq, Structural, Debug)]
pub enum Cell {
    Floor,
    Wall,
}

/// Chunk keys whose tiles all have `i32` coordinates.
pub open spec fn chunk_key_ok(c: int) -> bool {
    -107374182 <= c <= 107374181
}

/// Spawn points the generator accepts (world units): those whose tile, and
/// every tile within four of it, has `i32` coordinates.
pub open spec fn spawn_ok(x: int, y: int) -> bool {
    -85899345800i64 <= x <= 85899345719i64 && -85899345719i64 <= y <= 85899345800i64
}

/// World x of the centre of global tile column `gc` (and -y of row `gr`).
pub open spec fn tile_mid(g: int) -> int {
    g * (TILE as int) + 20
}

/// Squared distance between two world points.
pub open spec fn dist2(ax: int, ay: int, bx: int, by: int) -> int {
    (ax - bx) * (ax - bx) + (ay - by) * (ay - by)
}

/// Local tile (`lx`, `ly`) is inside the chunk and open floor.
pub open spec fn open_at(cells: Seq<Cell>, lx: int, ly: int) -> bool {
    0 <= lx < CHUNK && 0 <= ly < CHUNK && cells[local_index(lx, ly)] == Cell::Floor
}

/// The 3x3 block of tiles around (`lx`, `ly`) is all inside the chunk and open.
pub open spec fn area_open(cells: Seq<Cell>, lx: int, ly: int) -> bool {
    forall|dx: int, dy: int| -1 <= dx <= 1 && -1 <= dy <= 1 ==> #[trigger] open_at(cells, lx + dx, ly + dy)
}

/// Band of local rows/columns kept free of walls along every chunk edge.
pub open spec fn scene_margin(scene: Scene) -> int {
    match scene {
        Scene::Streets => 3,
        Scene::Park => 3,
        Scene::Neighborhood => 2,
    }
}

/// Every wall of the chunk lies in local columns and rows `m ..= 18 - m`:
/// at least `m` tiles in from the top and left edges and `m + 1` from the
/// bottom and right ones.
pub open spec fn walls_within(cells: Seq<Cell>, m: int) -> bool {
    forall|i: int| 0 <= i < CHUNK_CELLS && #[trigger] cells[i] == Cell::Wall ==>
        m <= i % (CHUNK as int) <= CHUNK - 2 - m && m <= i / (CHUNK as int) <= CHUNK - 2 - m
}

/// Global tile column/row of the spawn point.
pub open spec fn spawn_tile_x(sx: int) -> int {
    sx / (TILE as int)
}

/// Global tile row of the spawn point (rows grow as y falls).
pub open spec fn spawn_tile_y(sy: int) -> int {
    (-sy) / (TILE as int)
}

/// Every tile within three of the spawn tile that falls in chunk (`cx`, `cy`)
/// is open floor.
pub open spec fn spawn_clear(cells: Seq<Cell>, cx: int, cy: int, sx: int, sy: int) -> bool {
    forall|gc: int, gr: int|
        #![trigger local_index(local_of(gc), local_of(gr))]
        spawn_tile_x(sx) - 3 <= gc <= spawn_tile_x(sx) + 3 && spawn_tile_y(sy) - 3 <= gr
            <= spawn_tile_y(sy) + 3 && chunk_of(gc) == cx && chunk_of(gr) == cy ==> cells[local_index(
            local_of(gc),
            local_of(gr),
        )] == Cell::Floor
}

/// Local tile column of a prop of chunk column `cx`.
pub open spec fn prop_lx(p: Prop, cx: int) -> int {
    (p.x - 20) / (TILE as int) - cx * CHUNK
}

/// Local tile row of a prop of chunk row `cy`.
pub open spec fn prop_ly(p: Prop, cy: int) -> int {
    (-p.y - 20) / (TILE as int) - cy * CHUNK
}

/// A prop sits at the centre of an interior open tile of chunk (`cx`, `cy`)
/// (with its 3x3 surroundings open when its radius exceeds 16), at least 130
/// units from spawn, with the collider of its kind, and of a kind the scene
/// scatters.
pub open spec fn prop_placed(
    p: Prop,
    cells: Seq<Cell>,
    cx: int,
    cy: int,
    scene: Scene,
    sx: int,
    sy: int,
) -> bool {
    let lx = prop_lx(p, cx);
    let ly = prop_ly(p, cy);
    &&& 1 <= lx < CHUNK - 1
    &&& 1 <= ly < CHUNK - 1
    &&& p.x == tile_mid(cx * CHUNK + lx)
    &&& p.y == -tile_mid(cy * CHUNK + ly)
    &&& open_at(cells, lx, ly)
    &&& p.r > 16 ==> area_open(cells, lx, ly)
    &&& dist2(p.x as int, p.y as int, sx, sy) >= 130 * 130
    &&& scene_kinds(scene).contains(p.kind)
    &&& (p.r, p.solid) == spec_prop_spec(p.kind)
}

/// Two props keep at least 14 units between their colliders.
pub open spec fn props_apart(a: Prop, b: Prop) -> bool {
    dist2(a.x as int, a.y as int, b.x as int, b.y as int) >= (a.r + b.r + 14) * (a.r + b.r + 14)
}

/// A chunk of open floor.
pub open spec fn floor_chunk() -> Seq<Cell> {
    Seq::new(CHUNK_CELLS as nat, |i: int| Cell::Floor)
}

/// `after` is `before` with the walls of `scene` laid: one or two street
/// blocks, at most one park pavilion, or (in the neighborhood) either
/// nothing or a house with one door.
pub open spec fn scene_layout(scene: Scene, before: Seq<Cell>, after: Seq<Cell>) -> bool {
    match scene {
        Scene::Streets => exists|bs: Seq<(int, int, int, int)>|
            street_blocks(bs) && #[trigger] walls_added_in_blocks(before, after, bs),
        Scene::Park => exists|bs: Seq<(int, int, int, int)>|
            park_blocks(bs) && #[trigger] walls_added_in_blocks(before, after, bs),
        Scene::Neighborhood => after == before || exists|bx: int, by: int, bw: int, bh: int, door: int|
            #[trigger] house_built(before, after, bx, by, bw, bh, door),
    }
}

/// Local tile `i` of chunk (`cx`, `cy`) lies within three tiles of the spawn
/// tile.
pub open spec fn in_spawn_square(i: int, cx: int, cy: int, sx: int, sy: int) -> bool {
    let gc = cx * CHUNK + i % (CHUNK as int);
    let gr = cy * CHUNK + i / (CHUNK as int);
    &&& spawn_tile_x(sx) - 3 <= gc <= spawn_tile_x(sx) + 3
    &&& spawn_tile_y(sy) - 3 <= gr <= spawn_tile_y(sy) + 3
}

/// The cells are the scene's wall layout laid on open floor, with tiles of
/// the spawn square then opened: every tile is as laid, or open floor in the
/// spawn square.
pub open spec fn layout_of(cells: Seq<Cell>, cx: int, cy: int, scene: Scene, sx: int, sy: int) -> bool {
    exists|laid: Seq<Cell>|
        #[trigger] scene_layout(scene, floor_chunk(), laid) && laid.len() == CHUNK_CELLS && forall|i: int|
            0 <= i < CHUNK_CELLS ==> #[trigger] cells[i] == laid[i] || (cells[i] == Cell::Floor
                && in_spawn_square(i, cx, cy, sx, sy))
}

/// What holds of every generated chunk, whatever the random draws were: the
/// scene's wall layout (kept off the chunk edges, spawn square open), at most
/// the scene's number of props, each placed on open floor away from spawn and
/// apart from the others, and at least one prop when the chunk is all floor
/// and wholly away from spawn.
pub open spec fn chunk_valid(
    cells: Seq<Cell>,
    props: Seq<Prop>,
    cx: int,
    cy: int,
    scene: Scene,
    sx: int,
    sy: int,
) -> bool {
    &&& cells.len() == CHUNK_CELLS
    &&& walls_within(cells, scene_margin(scene))
    &&& spawn_clear(cells, cx, cy, sx, sy)
    &&& props.len() <= scene_prop_target(scene)
    &&& forall|i: int| 0 <= i < props.len() ==> prop_placed(#[trigger] props[i], cells, cx, cy, scene, sx, sy)
    &&& forall|i: int, j: int| 0 <= i < j < props.len() ==> props_apart(#[trigger] props[i], #[trigger] props[j])
    &&& layout_of(cells, cx, cy, scene, sx, sy)
    &&& all_floor(cells) && interior_far(cx, cy, sx, sy) ==> props.len() >= 1
}

/// Every prop a chunk is generated with blocks movement and shots unless it
/// is a bush.
pub proof fn lemma_generated_props_block(
    cells: Seq<Cell>,
    props: Seq<Prop>,
    cx: int,
    cy: int,
    scene: Scene,
    sx: int,
    sy: int,
)
    requires
        chunk_valid(cells, props, cx, cy, scene, sx, sy),
    ensures
        forall|i: int| 0 <= i < props.len() ==> (#[trigger] props[i]).solid == (props[i].kind != PropKind::Bush),
{
    assert forall|i: int| 0 <= i < props.len() implies (#[trigger] props[i]).solid == (props[i].kind
        != PropKind::Bush) by {
        assert(prop_placed(props[i], cells, cx, cy, scene, sx, sy));
        lemma_only_bushes_passable(props[i].kind);
    }
}

/// Seed of a chunk's generator: the world seed mixed with both chunk keys.
pub open spec fn spec_chunk_seed(cx: i32, cy: i32, seed: u64) -> u64 {
    seed ^ (cx as u64).wrapping_mul(0x9E37_79B9_7F4A_7C15u64) ^ (cy as u64).wrapping_mul(
        0xC2B2_AE3D_27D4_EB4Fu64,
    )
}

/// The generator seed for chunk (`cx`, `cy`) of a world seeded with `seed`.
pub fn chunk_seed(cx: i32, cy: i32, seed: u64) -> (h: u64)
    ensures
        h == spec_chunk_seed(cx, cy, seed),
{
    seed ^ (cx as u64).wrapping_mul(0x9E37_79B9_7F4A_7C15u64) ^ (cy as u64).wrapping_mul(
        0xC2B2_AE3D_27D4_EB4Fu64,
    )
}

pub proof fn lemma_index_parts(lx: int, ly: int)
    requires
        0 <= lx < CHUNK,
    ensures
        local_index(lx, ly) % (CHUNK as int) == lx,
        local_index(lx, ly) / (CHUNK as int) == ly,
{
    lemma_fundamental_div_mod_converse_mod(ly * 20 + lx, 20, ly, lx);
    lemma_fundamental_div_mod_converse_div(ly * 20 + lx, 20, ly, lx);
}

/// Write `v` to local tile (`lx`, `ly`); tiles outside the chunk are ignored.
fn set_cell(cells: &mut Vec<Cell>, lx: i32, ly: i32, v: Cell)
    requires
        old(cells).len() == CHUNK_CELLS,
    ensures
        final(cells).len() == CHUNK_CELLS,
        0 <= lx < CHUNK && 0 <= ly < CHUNK ==> final(cells)@ == old(cells)@.update(
            local_index(lx as int, ly as int),
            v,
        ),
        !(0 <= lx < CHUNK && 0 <= ly < CHUNK) ==> final(cells)@ == old(cells)@,
{
    if lx >= 0 && ly >= 0 && lx < CHUNK && ly < CHUNK {
        let idx = ly as usize * 20 + lx as usize;
        cells.set(idx, v);
    }
}

/// Writing a wall inside the margin, or any floor, keeps the walls inside it.
proof fn lemma_set_keeps_margin(cells: Seq<Cell>, lx: int, ly: int, v: Cell, m: int)
    requires
        cells.len() == CHUNK_CELLS,
        walls_within(cells, m),
        0 <= lx < CHUNK,
        0 <= ly < CHUNK,
        v == Cell::Wall ==> m <= lx <= CHUNK - 2 - m && m <= ly <= CHUNK - 2 - m,
    ensures
        walls_within(cells.update(local_index(lx, ly), v), m),
{
    lemma_index_parts(lx, ly);
    let c2 = cells.update(local_index(lx, ly), v);
    assert forall|i: int| 0 <= i < CHUNK_CELLS && #[trigger] c2[i] == Cell::Wall implies m <= i
        % (CHUNK as int) <= CHUNK - 2 - m && m <= i / (CHUNK as int) <= CHUNK - 2 - m by {
        if i != local_index(lx, ly) {
            assert(cells[i] == Cell::Wall);
        }
    }
}

/// Exec form of `open_at`.
fn open_cell(cells: &Vec<Cell>, lx: i32, ly: i32) -> (res: bool)
    requires
        cells.len() == CHUNK_CELLS,
    ensures
        res == open_at(cells@, lx as int, ly as int),
{
    if lx < 0 || ly < 0 || lx >= CHUNK || ly >= CHUNK {
        false
    } else {
        cells[ly as usize * 20 + lx as usize] == Cell::Floor
    }
}

/// Exec form of `area_open` (rows scanned top to bottom, stopping at the
/// first blocked tile).
fn area_clear(cells: &Vec<Cell>, lx: i32, ly: i32) -> (res: bool)
    requires
        cells.len() == CHUNK_CELLS,
        1 <= lx < CHUNK - 1,
        1 <= ly < CHUNK - 1,
    ensures
        res == area_open(cells@, lx as int, ly as int),
{
    let mut dy: i32 = -1;
    while dy <= 1
        invariant
            -1 <= dy <= 2,
            cells.len() == CHUNK_CELLS,
            1 <= lx < CHUNK - 1,
            1 <= ly < CHUNK - 1,
            forall|ddx: int, ddy: int|
                -1 <= ddx <= 1 && -1 <= ddy < dy ==> #[trigger] open_at(
                    cells@,
                    lx + ddx,
                    ly + ddy,
                ),
        decreases 2 - dy,
    {
        let mut dx: i32 = -1;
        while dx <= 1
            invariant
                -1 <= dx <= 2,
                -1 <= dy <= 1,
                cells.len() == CHUNK_CELLS,
                1 <= lx < CHUNK - 1,
                1 <= ly < CHUNK - 1,
                forall|ddx: int, ddy: int|
                    -1 <= ddx <= 1 && -1 <= ddy < dy ==> #[trigger] open_at(
                        cells@,
                        lx + ddx,
                        ly + ddy,
                    ),
                forall|ddx: int| -1 <= ddx < dx ==> #[trigger] open_at(cells@, lx + ddx, ly + dy),
            decreases 2 - dx,
        {
            if !open_cell(cells, lx + dx, ly + dy) {
                assert(!open_at(cells@, lx + dx, ly + dy));
                return false;
            }
            dx += 1;
        }
        dy += 1;
    }
    true
}

/// Exec squared-distance test: `dist2(a, b) < lim^2`.
fn closer_than(ax: i64, ay: i64, bx: i64, by: i64, lim: i64) -> (res: bool)
    requires
        -1099511627776i64 <= ax <= 1099511627776i64,
        -1099511627776i64 <= ay <= 1099511627776i64,
        -1099511627776i64 <= bx <= 1099511627776i64,
        -1099511627776i64 <= by <= 1099511627776i64,
        0 <= lim <= 1000,
    ensures
        res == (dist2(ax as int, ay as int, bx as int, by as int) < lim * lim),
{
    let dx = ax as i128 - bx as i128;
    let dy = ay as i128 - by as i128;
    assert(dx * dx <= 19342813113834066795298816i128) by (nonlinear_arith)
        requires
            -2199023255552i128 <= dx <= 2199023255552i128,
    ;
    assert(dy * dy <= 19342813113834066795298816i128) by (nonlinear_arith)
        requires
            -2199023255552i128 <= dy <= 2199023255552i128,
    ;
    assert(0 <= dx * dx && 0 <= dy * dy) by (nonlinear_arith);
    let l = lim as i128;
    assert(l * l <= 1000000) by (nonlinear_arith)
        requires
            0 <= l <= 1000,
    ;
    dx * dx + dy * dy < l * l
}

/// Does a prop of radius `r` at (`x`, `y`) come within 14 units of any prop
/// already placed?
fn crowded(props: &Vec<Prop>, x: i64, y: i64, r: u32) -> (res: bool)
    requires
        -1099511627776i64 <= x <= 1099511627776i64,
        -1099511627776i64 <= y <= 1099511627776i64,
        r <= 35,
        forall|i: int|
            0 <= i < props.len() ==> -1099511627776i64 <= (#[trigger] props[i]).x <= 1099511627776i64
                && -1099511627776i64 <= props[i].y <= 1099511627776i64 && props[i].r <= 35,
    ensures
        res == exists|i: int|
            0 <= i < props.len() && dist2(
                (#[trigger] props[i]).x as int,
                props[i].y as int,
                x as int,
                y as int,
            ) < (props[i].r + r + 14) * (props[i].r + r + 14),
{
    let mut i: usize = 0;
    while i < props.len()
        invariant
            i <= props.len(),
            -1099511627776i64 <= x <= 1099511627776i64,
            -1099511627776i64 <= y <= 1099511627776i64,
            r <= 35,
            forall|k: int|
                0 <= k < props.len() ==> -1099511627776i64 <= (#[trigger] props[k]).x <= 1099511627776i64
                    && -1099511627776i64 <= props[k].y <= 1099511627776i64 && props[k].r <= 35,
            forall|k: int|
                0 <= k < i ==> !(dist2(
                    (#[trigger] props[k]).x as int,
                    props[k].y as int,
                    x as int,
                    y as int,
                ) < (props[k].r + r + 14) * (props[k].r + r + 14)),
        decreases props.len() - i,
    {
        let p = props[i];
        let lim = p.r as i64 + r as i64 + 14;
        if closer_than(p.x, p.y, x, y, lim) {
            return true;
        }
        i += 1;
    }
    false
}

fn max_i32(a: i32, b: i32) -> (r: i32)
    ensures
        r == larger(a, b),
{
    if a >= b {
        a
    } else {
        b
    }
}

/// Local tile `i` lies in the `w` x `h` block whose corner is tile (`bx`, `by`).
pub open spec fn in_block(i: int, bx: int, by: int, w: int, h: int) -> bool {
    bx <= i % (CHUNK as int) < bx + w && by <= i / (CHUNK as int) < by + h
}

/// `after` is `before` with walls added inside the block and nowhere else.
pub open spec fn walls_added_in(before: Seq<Cell>, after: Seq<Cell>, bx: int, by: int, w: int, h: int) -> bool {
    &&& after.len() == before.len()
    &&& forall|i: int|
        0 <= i < after.len() && #[trigger] after[i] != before[i] ==> after[i] == Cell::Wall && in_block(
            i,
            bx,
            by,
            w,
            h,
        )
}

/// `after` is `before` with walls added inside some of the blocks `bs`
/// (corner column, corner row, width, height) and nowhere else.
pub open spec fn walls_added_in_blocks(before: Seq<Cell>, after: Seq<Cell>, bs: Seq<(int, int, int, int)>) -> bool {
    &&& after.len() == before.len()
    &&& forall|i: int|
        0 <= i < after.len() && #[trigger] after[i] != before[i] ==> after[i] == Cell::Wall && exists|j: int|
            0 <= j < bs.len() && #[trigger] in_block(i, bs[j].0, bs[j].1, bs[j].2, bs[j].3)
}

/// The blocks of a street chunk: one or two buildings, 4 to 7 tiles wide and
/// 3 to 5 deep.
pub open spec fn street_blocks(bs: Seq<(int, int, int, int)>) -> bool {
    &&& 1 <= bs.len() <= 2
    &&& forall|j: int| 0 <= j < bs.len() ==> 4 <= #[trigger] bs[j].2 < 8 && 3 <= bs[j].3 < 6
}

/// The blocks of a park chunk: at most one pavilion, 3 or 4 tiles wide and 3
/// deep.
pub open spec fn park_blocks(bs: Seq<(int, int, int, int)>) -> bool {
    &&& bs.len() <= 1
    &&& forall|j: int| 0 <= j < bs.len() ==> 3 <= #[trigger] bs[j].2 < 5 && bs[j].3 == 3
}

/// Local tile `i` lies on the outline of the block.
pub open spec fn on_outline(i: int, bx: int, by: int, w: int, h: int) -> bool {
    &&& in_block(i, bx, by, w, h)
    &&& (i % (CHUNK as int) == bx || i % (CHUNK as int) == bx + w - 1 || i / (CHUNK as int) == by || i
        / (CHUNK as int) == by + h - 1)
}

/// `after` is `before` with a house built: a `bw` x `bh` ring of walls
/// (7 to 9 wide, 6 or 7 deep) whose front (bottom) row has an open door at
/// column `door`, away from the corners; no tile off the ring changed.
pub open spec fn house_built(
    before: Seq<Cell>,
    after: Seq<Cell>,
    bx: int,
    by: int,
    bw: int,
    bh: int,
    door: int,
) -> bool {
    &&& after.len() == before.len()
    &&& 7 <= bw < 10
    &&& 6 <= bh < 8
    &&& bx + 2 <= door <= bx + bw - 3
    &&& forall|i: int|
        0 <= i < after.len() && #[trigger] after[i] != before[i] ==> on_outline(i, bx, by, bw, bh)
    &&& forall|i: int|
        0 <= i < after.len() && #[trigger] on_outline(i, bx, by, bw, bh) && i != local_index(door, by + bh - 1)
            ==> after[i] == Cell::Wall
    &&& after[local_index(door, by + bh - 1)] == Cell::Floor
}

/// Adding walls in one more block extends the blocks walls were added in.
proof fn lemma_blocks_extend(
    a: Seq<Cell>,
    b: Seq<Cell>,
    c: Seq<Cell>,
    bs: Seq<(int, int, int, int)>,
    bx: int,
    by: int,
    w: int,
    h: int,
)
    requires
        walls_added_in_blocks(a, b, bs),
        walls_added_in(b, c, bx, by, w, h),
    ensures
        walls_added_in_blocks(a, c, bs.push((bx, by, w, h))),
{
    let ns = bs.push((bx, by, w, h));
    assert forall|i: int| 0 <= i < c.len() && #[trigger] c[i] != a[i] implies c[i] == Cell::Wall && exists|j: int|
        0 <= j < ns.len() && #[trigger] in_block(i, ns[j].0, ns[j].1, ns[j].2, ns[j].3) by {
        if c[i] != b[i] {
            assert(ns[bs.len() as int] == (bx, by, w, h));
            assert(in_block(i, ns[bs.len() as int].0, ns[bs.len() as int].1, ns[bs.len() as int].2, ns[bs.len() as int].3));
        } else {
            assert(b[i] != a[i]);
            let j = choose|j: int| 0 <= j < bs.len() && #[trigger] in_block(i, bs[j].0, bs[j].1, bs[j].2, bs[j].3);
            assert(ns[j] == bs[j]);
            assert(in_block(i, ns[j].0, ns[j].1, ns[j].2, ns[j].3));
        }
    }
}

/// `cells` with local tile (`lx`, `ly`) set to `v`; a tile outside the chunk
/// leaves them unchanged.
pub open spec fn set_tile(cells: Seq<Cell>, lx: int, ly: int, v: Cell) -> Seq<Cell> {
    if 0 <= lx < CHUNK && 0 <= ly < CHUNK {
        cells.update(local_index(lx, ly), v)
    } else {
        cells
    }
}

/// The larger of two `i32`s.
pub open spec fn larger(a: i32, b: i32) -> i32 {
    if a >= b {
        a
    } else {
        b
    }
}

/// Cells and calls after stamping the first `n` tiles of row `ry` from column
/// `bx`, left to right: each tile draws a `gap`-in-100 chance and becomes a
/// wall unless it came up.
pub open spec fn stamp_row(
    cells: Seq<Cell>,
    hist: Seq<Draw>,
    seed: u64,
    bx: int,
    ry: int,
    n: nat,
    gap: u32,
) -> (Seq<Cell>, Seq<Draw>)
    decreases n,
{
    if n == 0 {
        (cells, hist)
    } else {
        let p = stamp_row(cells, hist, seed, bx, ry, (n - 1) as nat, gap);
        let h = p.1.push(Draw::Chance(gap, 100));
        if seeded_chance(seed, p.1, gap, 100) {
            (p.0, h)
        } else {
            (set_tile(p.0, bx + n - 1, ry, Cell::Wall), h)
        }
    }
}

/// Cells and calls after stamping the first `k` rows, `w` tiles each, of the
/// block whose corner is (`bx`, `by`), top to bottom.
pub open spec fn stamp_rows(
    cells: Seq<Cell>,
    hist: Seq<Draw>,
    seed: u64,
    bx: int,
    by: int,
    w: nat,
    k: nat,
    gap: u32,
) -> (Seq<Cell>, Seq<Draw>)
    decreases k,
{
    if k == 0 {
        (cells, hist)
    } else {
        let p = stamp_rows(cells, hist, seed, bx, by, w, (k - 1) as nat, gap);
        stamp_row(p.0, p.1, seed, bx, by + k - 1, w, gap)
    }
}

/// The draws that place a block: width in `wlo..whi`, height in `hlo..hhi`,
/// then its corner at least `edge` tiles in from the top-left and (where the
/// chunk leaves room) `edge` from the bottom-right. Gives (width, height,
/// corner column, corner row, calls after).
pub open spec fn block_draws(
    hist: Seq<Draw>,
    seed: u64,
    wlo: i32,
    whi: i32,
    hlo: i32,
    hhi: i32,
    edge: i32,
) -> (i32, i32, i32, i32, Seq<Draw>) {
    let bw = seeded_i32(seed, hist, wlo, whi);
    let h1 = hist.push(Draw::RangeI32(wlo, whi));
    let bh = seeded_i32(seed, h1, hlo, hhi);
    let h2 = h1.push(Draw::RangeI32(hlo, hhi));
    let xhi = larger((CHUNK - edge - bw) as i32, (edge + 1) as i32);
    let bx = seeded_i32(seed, h2, edge, xhi);
    let h3 = h2.push(Draw::RangeI32(edge, xhi));
    let yhi = larger((CHUNK - edge - bh) as i32, (edge + 1) as i32);
    let by = seeded_i32(seed, h3, edge, yhi);
    (bw, bh, bx, by, h3.push(Draw::RangeI32(edge, yhi)))
}

/// One street building: a 4..8 x 3..6 block stamped with 12% gaps.
pub open spec fn street_block_gen(cells: Seq<Cell>, hist: Seq<Draw>, seed: u64) -> (Seq<Cell>, Seq<Draw>) {
    let d = block_draws(hist, seed, 4, 8, 3, 6, 3);
    stamp_rows(cells, d.4, seed, d.2 as int, d.3 as int, d.0 as nat, d.1 as nat, 12)
}

/// `k` street buildings, one after the other.
pub open spec fn streets_gen(cells: Seq<Cell>, hist: Seq<Draw>, seed: u64, k: nat) -> (Seq<Cell>, Seq<Draw>)
    decreases k,
{
    if k == 0 {
        (cells, hist)
    } else {
        let p = streets_gen(cells, hist, seed, (k - 1) as nat);
        street_block_gen(p.0, p.1, seed)
    }
}

/// A park pavilion: a 3..5 x 3 block stamped with 15% gaps.
pub open spec fn pavilion_gen(cells: Seq<Cell>, hist: Seq<Draw>, seed: u64) -> (Seq<Cell>, Seq<Draw>) {
    let d = block_draws(hist, seed, 3, 5, 3, 4, 3);
    stamp_rows(cells, d.4, seed, d.2 as int, d.3 as int, d.0 as nat, d.1 as nat, 15)
}

/// `cells` with the outline of the block made walls.
pub open spec fn house_ring(cells: Seq<Cell>, bx: int, by: int, bw: int, bh: int) -> Seq<Cell> {
    Seq::new(cells.len(), |i: int| if on_outline(i, bx, by, bw, bh) { Cell::Wall } else { cells[i] })
}

/// A house: a 7..10 x 6..8 wall ring, then a door drawn in its front (bottom)
/// wall, at least two tiles from either corner.
pub open spec fn house_gen(cells: Seq<Cell>, hist: Seq<Draw>, seed: u64) -> (Seq<Cell>, Seq<Draw>) {
    let d = block_draws(hist, seed, 7, 10, 6, 8, 2);
    let ring = house_ring(cells, d.2 as int, d.3 as int, d.0 as int, d.1 as int);
    let dhi = larger((d.0 - 4) as i32, 1);
    let door = d.2 + 2 + seeded_i32(seed, d.4, 0, dhi);
    (set_tile(ring, door, d.3 + d.1 - 1, Cell::Floor), d.4.push(Draw::RangeI32(0, dhi)))
}

/// Cells and calls after laying the scene's walls on `cells` with a generator
/// seeded with `seed` that has made the calls `hist`: one or two street
/// buildings; a pavilion with chance 35%; a house with chance 85%.
pub open spec fn spec_lay_walls(scene: Scene, cells: Seq<Cell>, seed: u64, hist: Seq<Draw>) -> (Seq<Cell>, Seq<Draw>) {
    match scene {
        Scene::Streets => {
            let n = seeded_i32(seed, hist, 1, 3);
            streets_gen(cells, hist.push(Draw::RangeI32(1, 3)), seed, n as nat)
        },
        Scene::Park => {
            let h1 = hist.push(Draw::Chance(35, 100));
            if seeded_chance(seed, hist, 35, 100) {
                pavilion_gen(cells, h1, seed)
            } else {
                (cells, h1)
            }
        },
        Scene::Neighborhood => {
            let h1 = hist.push(Draw::Chance(85, 100));
            if seeded_chance(seed, hist, 85, 100) {
                house_gen(cells, h1, seed)
            } else {
                (cells, h1)
            }
        },
    }
}

/// Stamp a rectangular block of walls (`w` x `h` at `bx`, `by`), skipping each
/// tile with chance `gap`/100.
fn stamp_block(
    cells: &mut Vec<Cell>,
    rng: &mut SeededRng,
    bx: i32,
    by: i32,
    w: i32,
    h: i32,
    gap: u32,
    Ghost(m): Ghost<int>,
)
    requires
        old(cells).len() == CHUNK_CELLS,
        walls_within(old(cells)@, m),
        m <= bx,
        bx + w - 1 <= CHUNK - 2 - m,
        m <= by,
        by + h - 1 <= CHUNK - 2 - m,
        0 <= m,
        0 < w,
        0 < h,
        gap <= 100,
    ensures
        final(cells).len() == CHUNK_CELLS,
        walls_within(final(cells)@, m),
        walls_added_in(old(cells)@, final(cells)@, bx as int, by as int, w as int, h as int),
        gap == 0 ==> forall|i: int|
            0 <= i < CHUNK_CELLS && #[trigger] in_block(i, bx as int, by as int, w as int, h as int)
                ==> final(cells)@[i] == Cell::Wall,
        gap == 100 ==> final(cells)@ == old(cells)@,
        final(rng).seed() == old(rng).seed(),
        (final(cells)@, final(rng).hist()) == stamp_rows(
            old(cells)@,
            old(rng).hist(),
            old(rng).seed(),
            bx as int,
            by as int,
            w as nat,
            h as nat,
            gap,
        ),
{
    let ghost c0 = cells@;
    let ghost h0 = rng.hist();
    let ghost seed = rng.seed();
    let mut ry = by;
    while ry < by + h
        invariant
            cells.len() == CHUNK_CELLS,
            walls_within(cells@, m),
            by <= ry <= by + h,
            m <= bx,
            bx + w - 1 <= CHUNK - 2 - m,
            m <= by,
            by + h - 1 <= CHUNK - 2 - m,
            0 <= m,
            0 < w,
            0 < h,
            gap <= 100,
            old(cells).len() == CHUNK_CELLS,
            walls_added_in(old(cells)@, cells@, bx as int, by as int, w as int, h as int),
            gap == 0 ==> forall|i: int|
                0 <= i < CHUNK_CELLS && #[trigger] in_block(i, bx as int, by as int, w as int, ry - by)
                    ==> cells@[i] == Cell::Wall,
            gap == 100 ==> cells@ == old(cells)@,
            c0 == old(cells)@,
            rng.seed() == seed,
            (cells@, rng.hist()) == stamp_rows(c0, h0, seed, bx as int, by as int, w as nat, (ry - by) as nat, gap),
        decreases by + h - ry,
    {
        let mut rx = bx;
        while rx < bx + w
            invariant
                cells.len() == CHUNK_CELLS,
                walls_within(cells@, m),
                bx <= rx <= bx + w,
                by <= ry < by + h,
                m <= bx,
                bx + w - 1 <= CHUNK - 2 - m,
                m <= by,
                by + h - 1 <= CHUNK - 2 - m,
                0 <= m,
                0 < w,
                0 < h,
                gap <= 100,
                old(cells).len() == CHUNK_CELLS,
                walls_added_in(old(cells)@, cells@, bx as int, by as int, w as int, h as int),
                gap == 0 ==> forall|i: int|
                    0 <= i < CHUNK_CELLS && #[trigger] in_block(i, bx as int, by as int, w as int, ry - by)
                        ==> cells@[i] == Cell::Wall,
                gap == 0 ==> forall|i: int|
                    0 <= i < CHUNK_CELLS && #[trigger] in_block(i, bx as int, ry as int, rx - bx, 1)
                        ==> cells@[i] == Cell::Wall,
                gap == 100 ==> cells@ == old(cells)@,
                c0 == old(cells)@,
                rng.seed() == seed,
                (cells@, rng.hist()) == stamp_row(
                    stamp_rows(c0, h0, seed, bx as int, by as int, w as nat, (ry - by) as nat, gap).0,
                    stamp_rows(c0, h0, seed, bx as int, by as int, w as nat, (ry - by) as nat, gap).1,
                    seed,
                    bx as int,
                    ry as int,
                    (rx - bx) as nat,
                    gap,
                ),
            decreases bx + w - rx,
        {
            let ghost row0 = stamp_rows(c0, h0, seed, bx as int, by as int, w as nat, (ry - by) as nat, gap);
            if chance(rng, gap, 100) {
                assert(stamp_row(row0.0, row0.1, seed, bx as int, ry as int, (rx + 1 - bx) as nat, gap)
                    == (cells@, rng.hist()));
                rx += 1;
                continue;
            }
            let ghost before = cells@;
            let ghost idx = local_index(rx as int, ry as int);
            proof {
                lemma_set_keeps_margin(cells@, rx as int, ry as int, Cell::Wall, m);
                lemma_index_parts(rx as int, ry as int);
            }
            set_cell(cells, rx, ry, Cell::Wall);
            proof {
                assert(stamp_row(row0.0, row0.1, seed, bx as int, ry as int, (rx + 1 - bx) as nat, gap)
                    == (cells@, rng.hist()));
                assert forall|i: int| 0 <= i < cells@.len() && #[trigger] cells@[i] != old(cells)@[i] implies cells@[i]
                    == Cell::Wall && in_block(i, bx as int, by as int, w as int, h as int) by {
                    if i != idx {
                        assert(cells@[i] == before[i]);
                    }
                }
                if gap == 0 {
                    assert forall|i: int| 0 <= i < CHUNK_CELLS && #[trigger] in_block(i, bx as int, by as int, w as int, ry - by)
                        implies cells@[i] == Cell::Wall by {
                        if i != idx {
                            assert(cells@[i] == before[i]);
                        }
                    }
                    assert forall|i: int| 0 <= i < CHUNK_CELLS && #[trigger] in_block(i, bx as int, ry as int, rx + 1 - bx, 1)
                        implies cells@[i] == Cell::Wall by {
                        if i != idx {
                            assert(in_block(i, bx as int, ry as int, rx - bx, 1));
                            assert(cells@[i] == before[i]);
                        }
                    }
                }
            }
            rx += 1;
        }
        proof {
            assert(rx == bx + w);
            assert(stamp_rows(c0, h0, seed, bx as int, by as int, w as nat, (ry + 1 - by) as nat, gap)
                == (cells@, rng.hist()));
            if gap == 0 {
                assert forall|i: int| 0 <= i < CHUNK_CELLS && #[trigger] in_block(i, bx as int, by as int, w as int, ry + 1 - by)
                    implies cells@[i] == Cell::Wall by {
                    if i / (CHUNK as int) == ry {
                        assert(in_block(i, bx as int, ry as int, rx - bx, 1));
                    } else {
                        assert(in_block(i, bx as int, by as int, w as int, ry - by));
                    }
                }
            }
        }
        ry += 1;
    }
    proof {
        if gap == 0 {
            assert forall|i: int| 0 <= i < CHUNK_CELLS && #[trigger] in_block(i, bx as int, by as int, w as int, h as int)
                implies cells@[i] == Cell::Wall by {
                assert(in_block(i, bx as int, by as int, w as int, ry - by));
            }
        }
    }
}

/// Draw a block's size and corner (see `block_draws`).
fn draw_block(rng: &mut SeededRng, wlo: i32, whi: i32, hlo: i32, hhi: i32, edge: i32) -> (res: (i32, i32, i32, i32))
    requires
        0 < wlo < whi <= 10,
        0 < hlo < hhi <= 10,
        0 < edge <= 3,
    ensures
        (res.0, res.1, res.2, res.3, final(rng).hist()) == block_draws(
            old(rng).hist(),
            old(rng).seed(),
            wlo,
            whi,
            hlo,
            hhi,
            edge,
        ),
        final(rng).seed() == old(rng).seed(),
        wlo <= res.0 < whi,
        hlo <= res.1 < hhi,
        edge <= res.2 < larger((CHUNK - edge - res.0) as i32, (edge + 1) as i32),
        edge <= res.3 < larger((CHUNK - edge - res.1) as i32, (edge + 1) as i32),
{
    let bw = range_i32(rng, wlo, whi);
    let bh = range_i32(rng, hlo, hhi);
    let bx = range_i32(rng, edge, max_i32(CHUNK - edge - bw, edge + 1));
    let by = range_i32(rng, edge, max_i32(CHUNK - edge - bh, edge + 1));
    (bw, bh, bx, by)
}

/// Lay out the scene's walls: building blocks (Streets), the odd pavilion
/// (Park) or a house with a door in its front wall (Neighborhood).
fn lay_walls(cells: &mut Vec<Cell>, rng: &mut SeededRng, scene: Scene)
    requires
        old(cells).len() == CHUNK_CELLS,
        walls_within(old(cells)@, scene_margin(scene)),
    ensures
        final(cells).len() == CHUNK_CELLS,
        walls_within(final(cells)@, scene_margin(scene)),
        scene_layout(scene, old(cells)@, final(cells)@),
        final(rng).seed() == old(rng).seed(),
        (final(cells)@, final(rng).hist()) == spec_lay_walls(scene, old(cells)@, old(rng).seed(), old(rng).hist()),
{
    let ghost seed = rng.seed();
    let ghost h0 = rng.hist();
    match scene {
        Scene::Streets => {
            // Building blocks with margins so roads run between chunks.
            let n = range_i32(rng, 1, 3);
            let ghost h1 = rng.hist();
            let ghost mut bs: Seq<(int, int, int, int)> = Seq::empty();
            let mut k: i32 = 0;
            while k < n
                invariant
                    cells.len() == CHUNK_CELLS,
                    walls_within(cells@, 3),
                    scene == Scene::Streets,
                    1 <= n < 3,
                    0 <= k <= n,
                    bs.len() == k,
                    forall|j: int| 0 <= j < bs.len() ==> 4 <= #[trigger] bs[j].2 < 8 && 3 <= bs[j].3 < 6,
                    walls_added_in_blocks(old(cells)@, cells@, bs),
                    rng.seed() == seed,
                    h1 == h0.push(Draw::RangeI32(1, 3)),
                    n == seeded_i32(seed, h0, 1, 3),
                    (cells@, rng.hist()) == streets_gen(old(cells)@, h1, seed, k as nat),
                decreases n - k,
            {
                let (bw, bh, bx, by) = draw_block(rng, 4, 8, 3, 6, 3);
                let ghost before = cells@;
                stamp_block(cells, rng, bx, by, bw, bh, 12, Ghost(3));
                assert(streets_gen(old(cells)@, h1, seed, (k + 1) as nat) == (cells@, rng.hist()));
                proof {
                    lemma_blocks_extend(old(cells)@, before, cells@, bs, bx as int, by as int, bw as int, bh as int);
                    bs = bs.push((bx as int, by as int, bw as int, bh as int));
                }
                k += 1;
            }
            proof {
                assert(street_blocks(bs));
            }
        },
        Scene::Park => {
            let ghost mut bs: Seq<(int, int, int, int)> = Seq::empty();
            if chance(rng, 35, 100) {
                let (bw, bh, bx, by) = draw_block(rng, 3, 5, 3, 4, 3);
                stamp_block(cells, rng, bx, by, bw, bh, 15, Ghost(3));
                proof {
                    lemma_blocks_extend(old(cells)@, old(cells)@, cells@, bs, bx as int, by as int, bw as int, bh as int);
                    bs = bs.push((bx as int, by as int, bw as int, bh as int));
                }
            }
            proof {
                assert(park_blocks(bs));
                assert(walls_added_in_blocks(old(cells)@, cells@, bs));
            }
        },
        Scene::Neighborhood => {
            // A house: a wall ring with a door on the front (bottom) wall.
            if chance(rng, 85, 100) {
                let ghost h1 = rng.hist();
                let (bw, bh, bx, by) = draw_block(rng, 7, 10, 6, 8, 2);
                let ghost (gx, gy, gw, gh) = (bx as int, by as int, bw as int, bh as int);
                let mut rx = bx;
                while rx < bx + bw
                    invariant
                        cells.len() == CHUNK_CELLS,
                        walls_within(cells@, 2),
                        bx <= rx <= bx + bw,
                        7 <= bw < 10,
                        6 <= bh < 8,
                        2 <= bx < CHUNK - 2 - bw,
                        2 <= by < CHUNK - 2 - bh,
                        gx == bx && gy == by && gw == bw && gh == bh,
                        old(cells).len() == CHUNK_CELLS,
                        forall|i: int|
                            0 <= i < cells@.len() && #[trigger] cells@[i] != old(cells)@[i] ==> cells@[i] == Cell::Wall
                                && on_outline(i, gx, gy, gw, gh),
                        forall|i: int| 0 <= i < CHUNK_CELLS && #[trigger] in_block(i, gx, gy, rx - bx, 1) ==> cells@[i] == Cell::Wall,
                        forall|i: int| 0 <= i < CHUNK_CELLS && #[trigger] in_block(i, gx, gy + gh - 1, rx - bx, 1) ==> cells@[i] == Cell::Wall,
                    decreases bx + bw - rx,
                {
                    let ghost c0 = cells@;
                    let ghost i1 = local_index(rx as int, by as int);
                    let ghost i2 = local_index(rx as int, (by + bh - 1) as int);
                    proof {
                        lemma_set_keeps_margin(cells@, rx as int, by as int, Cell::Wall, 2);
                        lemma_index_parts(rx as int, by as int);
                        lemma_index_parts(rx as int, (by + bh - 1) as int);
                    }
                    set_cell(cells, rx, by, Cell::Wall);
                    proof {
                        lemma_set_keeps_margin(cells@, rx as int, (by + bh - 1) as int, Cell::Wall, 2);
                    }
                    set_cell(cells, rx, by + bh - 1, Cell::Wall);
                    proof {
                        assert forall|i: int| 0 <= i < cells@.len() && #[trigger] cells@[i] != old(cells)@[i] implies cells@[i]
                            == Cell::Wall && on_outline(i, gx, gy, gw, gh) by {
                            if i != i1 && i != i2 {
                                assert(cells@[i] == c0[i]);
                            }
                        }
                        assert forall|i: int| 0 <= i < CHUNK_CELLS && #[trigger] in_block(i, gx, gy, rx + 1 - bx, 1) implies cells@[i]
                            == Cell::Wall by {
                            if i != i1 && i != i2 {
                                assert(in_block(i, gx, gy, rx - bx, 1));
                                assert(cells@[i] == c0[i]);
                            }
                        }
                        assert forall|i: int| 0 <= i < CHUNK_CELLS && #[trigger] in_block(i, gx, gy + gh - 1, rx + 1 - bx, 1) implies cells@[i]
                            == Cell::Wall by {
                            if i != i1 && i != i2 {
                                assert(in_block(i, gx, gy + gh - 1, rx - bx, 1));
                                assert(cells@[i] == c0[i]);
                            }
                        }
                    }
                    rx += 1;
                }
                proof {
                    assert forall|i: int| 0 <= i < CHUNK_CELLS && #[trigger] in_block(i, gx, gy, gw, 1) implies cells@[i]
                        == Cell::Wall by {
                        assert(in_block(i, gx, gy, rx - bx, 1));
                    }
                    assert forall|i: int| 0 <= i < CHUNK_CELLS && #[trigger] in_block(i, gx, gy + gh - 1, gw, 1) implies cells@[i]
                        == Cell::Wall by {
                        assert(in_block(i, gx, gy + gh - 1, rx - bx, 1));
                    }
                }
                let mut ry = by;
                while ry < by + bh
                    invariant
                        cells.len() == CHUNK_CELLS,
                        walls_within(cells@, 2),
                        by <= ry <= by + bh,
                        7 <= bw < 10,
                        6 <= bh < 8,
                        2 <= bx < CHUNK - 2 - bw,
                        2 <= by < CHUNK - 2 - bh,
                        gx == bx && gy == by && gw == bw && gh == bh,
                        old(cells).len() == CHUNK_CELLS,
                        forall|i: int|
                            0 <= i < cells@.len() && #[trigger] cells@[i] != old(cells)@[i] ==> cells@[i] == Cell::Wall
                                && on_outline(i, gx, gy, gw, gh),
                        forall|i: int| 0 <= i < CHUNK_CELLS && #[trigger] in_block(i, gx, gy, gw, 1) ==> cells@[i] == Cell::Wall,
                        forall|i: int| 0 <= i < CHUNK_CELLS && #[trigger] in_block(i, gx, gy + gh - 1, gw, 1) ==> cells@[i] == Cell::Wall,
                        forall|i: int| 0 <= i < CHUNK_CELLS && #[trigger] in_block(i, gx, gy, 1, ry - by) ==> cells@[i] == Cell::Wall,
                        forall|i: int| 0 <= i < CHUNK_CELLS && #[trigger] in_block(i, gx + gw - 1, gy, 1, ry - by) ==> cells@[i] == Cell::Wall,
                    decreases by + bh - ry,
                {
                    let ghost c0 = cells@;
                    let ghost i1 = local_index(bx as int, ry as int);
                    let ghost i2 = local_index((bx + bw - 1) as int, ry as int);
                    proof {
                        lemma_set_keeps_margin(cells@, bx as int, ry as int, Cell::Wall, 2);
                        lemma_index_parts(bx as int, ry as int);
                        lemma_index_parts((bx + bw - 1) as int, ry as int);
                    }
                    set_cell(cells, bx, ry, Cell::Wall);
                    proof {
                        lemma_set_keeps_margin(cells@, (bx + bw - 1) as int, ry as int, Cell::Wall, 2);
                    }
                    set_cell(cells, bx + bw - 1, ry, Cell::Wall);
                    proof {
                        assert forall|i: int| 0 <= i < cells@.len() && #[trigger] cells@[i] != old(cells)@[i] implies cells@[i]
                            == Cell::Wall && on_outline(i, gx, gy, gw, gh) by {
                            if i != i1 && i != i2 {
                                assert(cells@[i] == c0[i]);
                            }
                        }
                        assert forall|i: int| 0 <= i < CHUNK_CELLS && #[trigger] in_block(i, gx, gy, gw, 1) implies cells@[i]
                            == Cell::Wall by {
                            if i != i1 && i != i2 {
                                assert(cells@[i] == c0[i]);
                            }
                        }
                        assert forall|i: int| 0 <= i < CHUNK_CELLS && #[trigger] in_block(i, gx, gy + gh - 1, gw, 1) implies cells@[i]
                            == Cell::Wall by {
                            if i != i1 && i != i2 {
                                assert(cells@[i] == c0[i]);
                            }
                        }
                        assert forall|i: int| 0 <= i < CHUNK_CELLS && #[trigger] in_block(i, gx, gy, 1, ry + 1 - by) implies cells@[i]
                            == Cell::Wall by {
                            if i != i1 && i != i2 {
                                assert(in_block(i, gx, gy, 1, ry - by));
                                assert(cells@[i] == c0[i]);
                            }
                        }
                        assert forall|i: int| 0 <= i < CHUNK_CELLS && #[trigger] in_block(i, gx + gw - 1, gy, 1, ry + 1 - by) implies cells@[i]
                            == Cell::Wall by {
                            if i != i1 && i != i2 {
                                assert(in_block(i, gx + gw - 1, gy, 1, ry - by));
                                assert(cells@[i] == c0[i]);
                            }
                        }
                    }
                    ry += 1;
                }
                proof {
                    assert forall|i: int| 0 <= i < CHUNK_CELLS implies #[trigger] cells@[i] == house_ring(
                        old(cells)@,
                        gx,
                        gy,
                        gw,
                        gh,
                    )[i] by {
                        if on_outline(i, gx, gy, gw, gh) {
                            if i / (CHUNK as int) == gy {
                                assert(in_block(i, gx, gy, gw, 1));
                            } else if i / (CHUNK as int) == gy + gh - 1 {
                                assert(in_block(i, gx, gy + gh - 1, gw, 1));
                            } else if i % (CHUNK as int) == gx {
                                assert(in_block(i, gx, gy, 1, ry - by));
                            } else {
                                assert(in_block(i, gx + gw - 1, gy, 1, ry - by));
                            }
                        }
                    }
                    assert(cells@ =~= house_ring(old(cells)@, gx, gy, gw, gh));
                }
                let door = bx + 2 + range_i32(rng, 0, max_i32(bw - 4, 1));
                let ghost c0 = cells@;
                let ghost di = local_index(door as int, (by + bh - 1) as int);
                proof {
                    lemma_set_keeps_margin(cells@, door as int, (by + bh - 1) as int, Cell::Floor, 2);
                    lemma_index_parts(door as int, (by + bh - 1) as int);
                }
                set_cell(cells, door, by + bh - 1, Cell::Floor);
                proof {
                    assert forall|i: int| 0 <= i < cells@.len() && #[trigger] cells@[i] != old(cells)@[i] implies on_outline(
                        i,
                        gx,
                        gy,
                        gw,
                        gh,
                    ) by {
                        if i != di {
                            assert(cells@[i] == c0[i]);
                        }
                    }
                    assert forall|i: int| 0 <= i < cells@.len() && #[trigger] on_outline(i, gx, gy, gw, gh) && i != local_index(
                        door as int,
                        gy + gh - 1,
                    ) implies cells@[i] == Cell::Wall by {
                        assert(cells@[i] == c0[i]);
                        if i / (CHUNK as int) == gy {
                            assert(in_block(i, gx, gy, gw, 1));
                        } else if i / (CHUNK as int) == gy + gh - 1 {
                            assert(in_block(i, gx, gy + gh - 1, gw, 1));
                        } else if i % (CHUNK as int) == gx {
                            assert(in_block(i, gx, gy, 1, ry - by));
                        } else {
                            assert(in_block(i, gx + gw - 1, gy, 1, ry - by));
                        }
                    }
                    assert(house_built(old(cells)@, cells@, gx, gy, gw, gh, door as int));
                    assert(house_gen(old(cells)@, h1, seed) == (cells@, rng.hist()));
                }
            }
        },
    }
}

/// `cells` with every tile of the spawn square opened.
pub open spec fn spec_clear_spawn(cells: Seq<Cell>, cx: int, cy: int, sx: int, sy: int) -> Seq<Cell> {
    Seq::new(cells.len(), |i: int| if in_spawn_square(i, cx, cy, sx, sy) { Cell::Floor } else { cells[i] })
}

/// A chunk whose spawn tiles are clear has every tile of the spawn square open.
proof fn lemma_square_open(cells: Seq<Cell>, cx: int, cy: int, sx: int, sy: int, i: int)
    requires
        spawn_clear(cells, cx, cy, sx, sy),
        0 <= i < CHUNK_CELLS,
        in_spawn_square(i, cx, cy, sx, sy),
    ensures
        cells[i] == Cell::Floor,
{
    let lx = i % (CHUNK as int);
    let ly = i / (CHUNK as int);
    lemma_fundamental_div_mod(i, 20);
    lemma_chunk_roundtrip(cx, lx);
    lemma_chunk_roundtrip(cy, ly);
    let gc = global_of(cx, lx);
    let gr = global_of(cy, ly);
    assert(local_index(local_of(gc), local_of(gr)) == i);
}

/// Keep the spawn area clear: open every tile within three of the spawn tile
/// that falls in this chunk.
fn clear_spawn(cells: &mut Vec<Cell>, cx: i32, cy: i32, sx: i64, sy: i64, Ghost(m): Ghost<int>)
    requires
        old(cells).len() == CHUNK_CELLS,
        walls_within(old(cells)@, m),
        spawn_ok(sx as int, sy as int),
    ensures
        final(cells)@ == spec_clear_spawn(old(cells)@, cx as int, cy as int, sx as int, sy as int),
        final(cells).len() == CHUNK_CELLS,
        walls_within(final(cells)@, m),
        spawn_clear(final(cells)@, cx as int, cy as int, sx as int, sy as int),
        forall|i: int|
            0 <= i < CHUNK_CELLS && #[trigger] final(cells)@[i] != old(cells)@[i] ==> final(cells)@[i] == Cell::Floor
                && in_spawn_square(i, cx as int, cy as int, sx as int, sy as int),
{
    let sc = match sx.checked_div_euclid(TILE) {
        Some(v) => v,
        None => 0,
    };
    let sr = match (-sy).checked_div_euclid(TILE) {
        Some(v) => v,
        None => 0,
    };
    let sc = sc as i32;
    let sr = sr as i32;
    let mut gr = sr - 3;
    while gr <= sr + 3
        invariant
            cells.len() == CHUNK_CELLS,
            walls_within(cells@, m),
            sc == spawn_tile_x(sx as int),
            sr == spawn_tile_y(sy as int),
            -2147483645 <= sc <= 2147483642,
            -2147483645 <= sr <= 2147483642,
            sr - 3 <= gr <= sr + 4,
            old(cells).len() == CHUNK_CELLS,
            forall|i: int|
                0 <= i < CHUNK_CELLS && #[trigger] cells@[i] != old(cells)@[i] ==> cells@[i] == Cell::Floor
                    && in_spawn_square(i, cx as int, cy as int, sx as int, sy as int),
            forall|a: int, b: int|
                #![trigger local_index(local_of(a), local_of(b))]
                sc - 3 <= a <= sc + 3 && sr - 3 <= b < gr && chunk_of(a) == cx && chunk_of(b)
                    == cy ==> cells@[local_index(local_of(a), local_of(b))] == Cell::Floor,
        decreases sr + 4 - gr,
    {
        let mut gc = sc - 3;
        while gc <= sc + 3
            invariant
                cells.len() == CHUNK_CELLS,
                walls_within(cells@, m),
                sc == spawn_tile_x(sx as int),
                sr == spawn_tile_y(sy as int),
                -2147483645 <= sc <= 2147483642,
                -2147483645 <= sr <= 2147483642,
                sr - 3 <= gr <= sr + 3,
                sc - 3 <= gc <= sc + 4,
                old(cells).len() == CHUNK_CELLS,
                forall|i: int|
                    0 <= i < CHUNK_CELLS && #[trigger] cells@[i] != old(cells)@[i] ==> cells@[i] == Cell::Floor
                        && in_spawn_square(i, cx as int, cy as int, sx as int, sy as int),
                forall|a: int, b: int|
                    #![trigger local_index(local_of(a), local_of(b))]
                    sc - 3 <= a <= sc + 3 && sr - 3 <= b < gr && chunk_of(a) == cx && chunk_of(b)
                        == cy ==> cells@[local_index(local_of(a), local_of(b))] == Cell::Floor,
                forall|a: int|
                    #![trigger local_index(local_of(a), local_of(gr as int))]
                    sc - 3 <= a < gc && chunk_of(a) == cx && chunk_of(gr as int) == cy
                        ==> cells@[local_index(local_of(a), local_of(gr as int))] == Cell::Floor,
            decreases sc + 4 - gc,
        {
            let (kx, lx) = split_coord(gc);
            let (ky, ly) = split_coord(gr);
            if kx == cx && ky == cy {
                let ghost c0 = cells@;
                let ghost idx = local_index(lx as int, ly as int);
                proof {
                    lemma_set_keeps_margin(cells@, lx as int, ly as int, Cell::Floor, m);
                    lemma_index_parts(lx as int, ly as int);
                    lemma_tile_decomposes(gc as int);
                    lemma_tile_decomposes(gr as int);
                    assert(in_spawn_square(idx, cx as int, cy as int, sx as int, sy as int));
                }
                set_cell(cells, lx, ly, Cell::Floor);
                proof {
                    assert forall|i: int|
                        0 <= i < CHUNK_CELLS && #[trigger] cells@[i] != old(cells)@[i] implies cells@[i] == Cell::Floor
                            && in_spawn_square(i, cx as int, cy as int, sx as int, sy as int) by {
                        if i != idx {
                            assert(cells@[i] == c0[i]);
                        }
                    }
                }
            }
            gc += 1;
        }
        gr += 1;
    }
    proof {
        assert(spawn_clear(cells@, cx as int, cy as int, sx as int, sy as int));
        assert forall|i: int| 0 <= i < CHUNK_CELLS implies #[trigger] cells@[i] == spec_clear_spawn(
            old(cells)@,
            cx as int,
            cy as int,
            sx as int,
            sy as int,
        )[i] by {
            if in_spawn_square(i, cx as int, cy as int, sx as int, sy as int) {
                lemma_square_open(cells@, cx as int, cy as int, sx as int, sy as int, i);
            }
        }
        assert(cells@ =~= spec_clear_spawn(old(cells)@, cx as int, cy as int, sx as int, sy as int));
    }
}

proof fn lemma_tile_mid_inverse(c: int, l: int)
    ensures
        (tile_mid(c * CHUNK + l) - 20) / (TILE as int) - c * CHUNK == l,
{
    lemma_fundamental_div_mod_converse_div((c * 20 + l) * 40, 40, c * 20 + l, 0);
}

/// Every tile of the chunk is open floor.
pub open spec fn all_floor(cells: Seq<Cell>) -> bool {
    &&& cells.len() == CHUNK_CELLS
    &&& forall|i: int| 0 <= i < CHUNK_CELLS ==> #[trigger] cells[i] == Cell::Floor
}

/// The centre of local tile (`lx`, `ly`) of chunk (`cx`, `cy`) is at least 130
/// units from the spawn point.
pub open spec fn tile_far(cx: int, cy: int, lx: int, ly: int, sx: int, sy: int) -> bool {
    dist2(tile_mid(cx * CHUNK + lx), -tile_mid(cy * CHUNK + ly), sx, sy) >= 130 * 130
}

/// Every interior tile of chunk (`cx`, `cy`) is at least 130 units from spawn.
pub open spec fn interior_far(cx: int, cy: int, sx: int, sy: int) -> bool {
    forall|lx: int, ly: int| 1 <= lx < CHUNK - 1 && 1 <= ly < CHUNK - 1 ==> #[trigger] tile_far(cx, cy, lx, ly, sx, sy)
}

/// Some prop of `props` comes within 14 units of a prop of radius `r` at
/// (`x`, `y`).
pub open spec fn crowded_at(props: Seq<Prop>, x: int, y: int, r: int) -> bool {
    exists|i: int|
        0 <= i < props.len() && dist2((#[trigger] props[i]).x as int, props[i].y as int, x, y) < (props[i].r
            + r + 14) * (props[i].r + r + 14)
}

/// One placement try on chunk (`cx`, `cy`): draw an interior tile; unless it
/// is within 130 units of spawn, draw a kind of the scene; keep the prop,
/// with a drawn facing, when its tile (its 3x3 surroundings for a radius over
/// 16) is open and it crowds no prop already placed. Gives the props and the
/// calls after.
pub open spec fn prop_attempt(
    props: Seq<Prop>,
    hist: Seq<Draw>,
    cells: Seq<Cell>,
    seed: u64,
    cx: int,
    cy: int,
    scene: Scene,
    sx: int,
    sy: int,
) -> (Seq<Prop>, Seq<Draw>) {
    let lx = seeded_i32(seed, hist, 1, (CHUNK - 1) as i32);
    let h1 = hist.push(Draw::RangeI32(1, (CHUNK - 1) as i32));
    let ly = seeded_i32(seed, h1, 1, (CHUNK - 1) as i32);
    let h2 = h1.push(Draw::RangeI32(1, (CHUNK - 1) as i32));
    let x = tile_mid(cx * CHUNK + lx);
    let y = -tile_mid(cy * CHUNK + ly);
    if dist2(x, y, sx, sy) < 130 * 130 {
        (props, h2)
    } else {
        let n = scene_kinds(scene).len() as u64;
        let kind = scene_kinds(scene)[seeded_u64(seed, h2, 0, n) as int];
        let h3 = h2.push(Draw::RangeU64(0, n));
        let st = spec_prop_spec(kind);
        let ok = if st.0 > 16 {
            area_open(cells, lx as int, ly as int)
        } else {
            open_at(cells, lx as int, ly as int)
        };
        if !ok || crowded_at(props, x, y, st.0 as int) {
            (props, h3)
        } else {
            let p = Prop { kind, x: x as i64, y: y as i64, r: st.0, solid: st.1, turn: seeded_next_u32(seed, h3) };
            (props.push(p), h3.push(Draw::NextU32))
        }
    }
}

/// Props and calls after `t` placement tries starting from the calls `hist`,
/// tries stopping once the scene's target number of props is placed.
pub open spec fn props_gen(
    cells: Seq<Cell>,
    seed: u64,
    hist: Seq<Draw>,
    cx: int,
    cy: int,
    scene: Scene,
    sx: int,
    sy: int,
    t: nat,
) -> (Seq<Prop>, Seq<Draw>)
    decreases t,
{
    if t == 0 {
        (Seq::empty(), hist)
    } else {
        let p = props_gen(cells, seed, hist, cx, cy, scene, sx, sy, (t - 1) as nat);
        if p.0.len() >= scene_prop_target(scene) {
            p
        } else {
            prop_attempt(p.0, p.1, cells, seed, cx, cy, scene, sx, sy)
        }
    }
}

/// Once the target number of props is placed, further tries change nothing.
proof fn lemma_props_gen_stable(
    cells: Seq<Cell>,
    seed: u64,
    hist: Seq<Draw>,
    cx: int,
    cy: int,
    scene: Scene,
    sx: int,
    sy: int,
    t: nat,
    u: nat,
)
    requires
        t <= u,
        props_gen(cells, seed, hist, cx, cy, scene, sx, sy, t).0.len() >= scene_prop_target(scene),
    ensures
        props_gen(cells, seed, hist, cx, cy, scene, sx, sy, u) == props_gen(cells, seed, hist, cx, cy, scene, sx, sy, t),
    decreases u - t,
{
    if u > t {
        lemma_props_gen_stable(cells, seed, hist, cx, cy, scene, sx, sy, t, (u - 1) as nat);
    }
}

/// What the generator makes of chunk (`cx`, `cy`) of a world with `seed` and
/// `scene` and spawn point (`sx`, `sy`): a generator seeded with the chunk's
/// seed lays the scene's walls on open floor, the spawn square is opened,
/// then up to 120 tries place props with the same generator.
pub open spec fn spec_gen_chunk(cx: i32, cy: i32, seed: u64, scene: Scene, sx: i64, sy: i64) -> (Seq<Cell>, Seq<Prop>) {
    let s = spec_chunk_seed(cx, cy, seed);
    let laid = spec_lay_walls(scene, floor_chunk(), s, Seq::empty());
    let cells = spec_clear_spawn(laid.0, cx as int, cy as int, sx as int, sy as int);
    (cells, props_gen(cells, s, laid.1, cx as int, cy as int, scene, sx as int, sy as int, 120).0)
}

/// Scatter up to the scene's target number of props onto open floor, giving
/// up after 120 tries.
fn place_props(cells: &Vec<Cell>, rng: &mut SeededRng, cx: i32, cy: i32, scene: Scene, sx: i64, sy: i64) -> (props: Vec<Prop>)
    requires
        cells.len() == CHUNK_CELLS,
        chunk_key_ok(cx as int),
        chunk_key_ok(cy as int),
        spawn_ok(sx as int, sy as int),
    ensures
        props.len() <= scene_prop_target(scene),
        forall|i: int| 0 <= i < props.len() ==> prop_placed(#[trigger] props@[i], cells@, cx as int, cy as int, scene, sx as int, sy as int),
        forall|i: int, j: int| 0 <= i < j < props.len() ==> props_apart(#[trigger] props@[i], #[trigger] props@[j]),
        all_floor(cells@) && interior_far(cx as int, cy as int, sx as int, sy as int) ==> props.len() >= 1,
        final(rng).seed() == old(rng).seed(),
        (props@, final(rng).hist()) == props_gen(
            cells@,
            old(rng).seed(),
            old(rng).hist(),
            cx as int,
            cy as int,
            scene,
            sx as int,
            sy as int,
            120,
        ),
{
    let ghost seed = rng.seed();
    let ghost h0 = rng.hist();
    let kinds = prop_kinds(scene);
    let want = prop_target(scene);
    let mut props: Vec<Prop> = Vec::new();
    let mut tries: u32 = 0;
    while props.len() < want && tries < 120
        invariant
            cells.len() == CHUNK_CELLS,
            chunk_key_ok(cx as int),
            chunk_key_ok(cy as int),
            spawn_ok(sx as int, sy as int),
            kinds@ == scene_kinds(scene),
            want == scene_prop_target(scene),
            props.len() <= want,
            tries <= 120,
            forall|i: int| 0 <= i < props.len() ==> prop_placed(#[trigger] props@[i], cells@, cx as int, cy as int, scene, sx as int, sy as int),
            forall|i: int| 0 <= i < props.len() ==> -1099511627776i64 <= (#[trigger] props@[i]).x <= 1099511627776i64
                && -1099511627776i64 <= props@[i].y <= 1099511627776i64 && props@[i].r <= 35,
            forall|i: int, j: int| 0 <= i < j < props.len() ==> props_apart(#[trigger] props@[i], #[trigger] props@[j]),
            tries == 0 ==> props.len() == 0,
            all_floor(cells@) && interior_far(cx as int, cy as int, sx as int, sy as int) && tries > 0 ==> props.len() >= 1,
            rng.seed() == seed,
            (props@, rng.hist()) == props_gen(cells@, seed, h0, cx as int, cy as int, scene, sx as int, sy as int, tries as nat),
        decreases 120 - tries,
    {
        let ghost prev = (props@, rng.hist());
        tries += 1;
        let lx = range_i32(rng, 1, CHUNK - 1);
        let ly = range_i32(rng, 1, CHUNK - 1);
        let gc = cx * CHUNK + lx;
        let gr = cy * CHUNK + ly;
        let x = gc as i64 * TILE + 20;
        let y = -(gr as i64 * TILE + 20);
        proof {
            if all_floor(cells@) && interior_far(cx as int, cy as int, sx as int, sy as int) {
                assert(tile_far(cx as int, cy as int, lx as int, ly as int, sx as int, sy as int));
                assert(x == tile_mid(cx * CHUNK + lx));
                assert(y == -tile_mid(cy * CHUNK + ly));
                assert forall|dx: int, dy: int| -1 <= dx <= 1 && -1 <= dy <= 1 implies #[trigger] open_at(
                    cells@,
                    lx + dx,
                    ly + dy,
                ) by {
                    assert(0 <= local_index(lx + dx, ly + dy) < CHUNK_CELLS);
                }
                assert(area_open(cells@, lx as int, ly as int));
                assert(open_at(cells@, lx + 0, ly + 0));
            }
        }
        proof {
            assert(x == tile_mid(cx * CHUNK + lx));
            assert(y == -tile_mid(cy * CHUNK + ly));
        }
        if closer_than(x, y, sx, sy, 130) {
            assert(props_gen(cells@, seed, h0, cx as int, cy as int, scene, sx as int, sy as int, tries as nat)
                == (props@, rng.hist()));
            continue;
        }
        let ki = range_u64(rng, 0, kinds.len() as u64) as usize;
        let kind = kinds[ki];
        let (pr, solid) = prop_spec(kind);
        let ok = if pr > 16 {
            area_clear(cells, lx, ly)
        } else {
            open_cell(cells, lx, ly)
        };
        if !ok {
            assert(props_gen(cells@, seed, h0, cx as int, cy as int, scene, sx as int, sy as int, tries as nat)
                == (props@, rng.hist()));
            continue;
        }
        if crowded(&props, x, y, pr) {
            assert(props_gen(cells@, seed, h0, cx as int, cy as int, scene, sx as int, sy as int, tries as nat)
                == (props@, rng.hist()));
            continue;
        }
        let turn = next_u32(rng);
        let p = Prop { kind, x, y, r: pr, solid, turn };
        proof {
            lemma_tile_mid_inverse(cx as int, lx as int);
            lemma_tile_mid_inverse(cy as int, ly as int);
            assert(prop_lx(p, cx as int) == lx);
            assert(prop_ly(p, cy as int) == ly);
            if pr > 16 {
                assert(open_at(cells@, lx + 0, ly + 0));
            }
            assert(kinds@[ki as int] == kind);
            assert(scene_kinds(scene).contains(kind));
            assert(prop_placed(p, cells@, cx as int, cy as int, scene, sx as int, sy as int));
        }
        props.push(p);
        proof {
            assert forall|i: int, j: int| 0 <= i < j < props.len() implies props_apart(#[trigger] props@[i], #[trigger] props@[j]) by {
                if j == props.len() - 1 {
                    assert(props@[j] == p);
                    assert(!(dist2(props@[i].x as int, props@[i].y as int, x as int, y as int) < (props@[i].r + pr + 14) * (props@[i].r + pr + 14)));
                }
            }
            assert(props_gen(cells@, seed, h0, cx as int, cy as int, scene, sx as int, sy as int, tries as nat)
                == (props@, rng.hist()));
        }
    }
    proof {
        if tries < 120 {
            lemma_props_gen_stable(cells@, seed, h0, cx as int, cy as int, scene, sx as int, sy as int, tries as nat, 120);
        }
    }
    props
}

/// Seeded per-chunk generation of wall cells + prop colliders for chunk
/// (`cx`, `cy`) of a world with `seed` and `scene`, keeping clear of the spawn
/// point (`sx`, `sy`). The result is exactly `spec_gen_chunk` of the
/// arguments: the same arguments give the same chunk, whatever was generated
/// before. It is also a valid chunk (`chunk_valid`): the scene's wall layout
/// (street blocks, a park pavilion or a house with one door) laid on open
/// floor and kept off the chunk edges, the spawn area opened, and props apart
/// on open interior tiles away from spawn, at least one when the chunk is all
/// floor and away from spawn.
pub fn gen_chunk(cx: i32, cy: i32, seed: u64, scene: Scene, sx: i64, sy: i64) -> (res: (Vec<Cell>, Vec<Prop>))
    requires
        chunk_key_ok(cx as int),
        chunk_key_ok(cy as int),
        spawn_ok(sx as int, sy as int),
    ensures
        chunk_valid(res.0@, res.1@, cx as int, cy as int, scene, sx as int, sy as int),
        (res.0@, res.1@) == spec_gen_chunk(cx, cy, seed, scene, sx, sy),
{
    let mut cells = vec![Cell::Floor; CHUNK_CELLS];
    assert(cells@ =~= floor_chunk());
    let h = chunk_seed(cx, cy, seed);
    let mut rng = SeededRng::from_seed(h);
    lay_walls(&mut cells, &mut rng, scene);
    let ghost laid = cells@;
    clear_spawn(&mut cells, cx, cy, sx, sy, Ghost(scene_margin(scene)));
    proof {
        assert(scene_layout(scene, floor_chunk(), laid) && laid.len() == CHUNK_CELLS && forall|i: int|
            0 <= i < CHUNK_CELLS ==> #[trigger] cells@[i] == laid[i] || (cells@[i] == Cell::Floor
                && in_spawn_square(i, cx as int, cy as int, sx as int, sy as int)));
    }
    let props = place_props(&cells, &mut rng, cx, cy, scene, sx, sy);
    assert((cells@, props@) == spec_gen_chunk(cx, cy, seed, scene, sx, sy));
    (cells, props)
}

} // verus!
