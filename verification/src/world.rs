//! The endless map: a set of loaded chunks streamed in around the player.

use vstd::prelude::*;
use crate::chunkgen::{Cell, chunk_key_ok, chunk_valid, gen_chunk, lemma_index_parts, scene_margin, spawn_ok, spawn_tile_x, spawn_tile_y, spec_gen_chunk, tile_mid};
use crate::grid::lemma_tile_decomposes;
use crate::grid::{CHUNK, CHUNK_R, chunk_of, local_index, local_of, split_coord, tile_to_chunk};
use crate::props::Prop;
use crate::rng::{thread_range_usize, thread_u64};
use crate::scene::Scene;
use std::collections::HashMap;
use vstd::arithmetic::div_mod::{lemma_fundamental_div_mod_converse_div, lemma_fundamental_div_mod_converse_mod};

verus! {

broadcast use vstd::std_specs::hash::group_hash_axioms;

/// One loaded piece of the endless map: its key, its tiles (row-major, local)
/// and its prop colliders (world space).
pub struct Chunk {
    pub cx: i32,
    pub cy: i32,
    pub cells: Vec<Cell>,
    pub props: Vec<Prop>,
}

/// Key of a chunk.
pub open spec fn key_of(c: Chunk) -> (i32, i32) {
    (c.cx, c.cy)
}

/// Contents of a chunk: (cells, props).
pub open spec fn data_of(c: Chunk) -> (Seq<Cell>, Seq<Prop>) {
    (c.cells@, c.props@)
}

/// Code of chunk key `k` in the chunk store: both halves shifted to be
/// unsigned, the column in the high 32 bits and the row in the low 32.
pub open spec fn key_code(k: (i32, i32)) -> u64 {
    ((k.0 as int + 2147483648) * 4294967296 + (k.1 as int + 2147483648)) as u64
}

/// Distinct keys have distinct codes.
proof fn lemma_key_code_injective(a: (i32, i32), b: (i32, i32))
    ensures
        key_code(a) == key_code(b) ==> a == b,
{
    let xa = a.0 as int + 2147483648;
    let ya = a.1 as int + 2147483648;
    let xb = b.0 as int + 2147483648;
    let yb = b.1 as int + 2147483648;
    assert(0 <= xa * 4294967296 + ya <= 0xffff_ffff_ffff_ffff);
    assert(0 <= xb * 4294967296 + yb <= 0xffff_ffff_ffff_ffff);
    if key_code(a) == key_code(b) {
        let c = xa * 4294967296 + ya;
        assert(c == xb * 4294967296 + yb);
        lemma_fundamental_div_mod_converse_div(c, 4294967296, xa, ya);
        lemma_fundamental_div_mod_converse_div(c, 4294967296, xb, yb);
        lemma_fundamental_div_mod_converse_mod(c, 4294967296, xa, ya);
        lemma_fundamental_div_mod_converse_mod(c, 4294967296, xb, yb);
    }
}

/// The store code of key (`cx`, `cy`).
fn pack_key(cx: i32, cy: i32) -> (r: u64)
    ensures
        r == key_code((cx, cy)),
{
    let x = (cx as i64 + 2147483648) as u64;
    let y = (cy as i64 + 2147483648) as u64;
    assert(x * 4294967296 + y <= 0xffff_ffff_ffff_ffff) by (nonlinear_arith)
        requires
            x <= 0xffff_ffff,
            y <= 0xffff_ffff,
    ;
    x * 4294967296 + y
}

/// What a world holds, as plain values: its seed and scene, the spawn point
/// (world units) and the loaded chunks by key.
pub struct WorldView {
    pub seed: u64,
    pub scene: Scene,
    pub spawn: (i64, i64),
    pub chunks: Map<(i32, i32), (Seq<Cell>, Seq<Prop>)>,
}

/// The world is an infinite grid of chunks streamed in around the player.
/// Loaded chunks are stored by the code of their key (`key_code`).
pub struct World {
    seed: u64,
    scene: Scene,
    spawn_x: i64,
    spawn_y: i64,
    chunks: HashMap<u64, Chunk>,
}

/// Every loaded chunk of a world view is exactly what the generator makes
/// for its key, the view's seed, scene and spawn point (`spec_gen_chunk`),
/// and so has all that the generator guarantees of such a chunk
/// (`chunk_valid`): the scene's wall layout on open floor with the spawn
/// square opened, and validly placed props, at least one when the chunk is
/// all floor and away from spawn.
pub open spec fn chunks_valid(v: WorldView) -> bool {
    forall|k: (i32, i32)|
        #[trigger] v.chunks.contains_key(k) ==> chunk_key_ok(k.0 as int) && chunk_key_ok(k.1 as int)
            && v.chunks[k] == spec_gen_chunk(k.0, k.1, v.seed, v.scene, v.spawn.0, v.spawn.1)
            && chunk_valid(
            v.chunks[k].0,
            v.chunks[k].1,
            k.0 as int,
            k.1 as int,
            v.scene,
            v.spawn.0 as int,
            v.spawn.1 as int,
        )
}

impl View for World {
    type V = WorldView;

    closed spec fn view(&self) -> WorldView {
        WorldView {
            seed: self.seed,
            scene: self.scene,
            spawn: (self.spawn_x, self.spawn_y),
            chunks: Map::new(
                |k: (i32, i32)| self.chunks@.contains_key(key_code(k)),
                |k: (i32, i32)| data_of(self.chunks@[key_code(k)]),
            ),
        }
    }
}

/// The key of the chunk holding global tile (`gc`, `gr`).
pub open spec fn key_of_tile(gc: int, gr: int) -> (i32, i32) {
    (chunk_of(gc) as i32, chunk_of(gr) as i32)
}

/// Is tile (`gc`, `gr`) a wall in this view? Tiles of chunks that are not
/// loaded read as open floor.
pub open spec fn tile_solid(v: WorldView, gc: int, gr: int) -> bool {
    let k = key_of_tile(gc, gr);
    v.chunks.contains_key(k) && v.chunks[k].0[local_index(local_of(gc), local_of(gr))] == Cell::Wall
}

/// Props of chunk `k` of a view (none when it is not loaded).
pub open spec fn props_in(v: WorldView, k: (i32, i32)) -> Seq<Prop> {
    if v.chunks.contains_key(k) {
        v.chunks[k].1
    } else {
        Seq::empty()
    }
}

/// The `n`-th chunk (0..9) of the 3x3 block around chunk (`cx`, `cy`), row by
/// row from the north-west.
pub open spec fn near_key(cx: int, cy: int, n: int) -> (i32, i32) {
    ((cx + n % 3 - 1) as i32, (cy + n / 3 - 1) as i32)
}

/// Props of the first `n` chunks of the 3x3 block, in that order.
pub open spec fn near_seq(v: WorldView, cx: int, cy: int, n: nat) -> Seq<Prop>
    decreases n,
{
    if n == 0 {
        Seq::empty()
    } else {
        near_seq(v, cx, cy, (n - 1) as nat) + props_in(v, near_key(cx, cy, n - 1))
    }
}

/// Chunk `k` lies outside the (2R+1)^2 window centred on chunk (`pcx`, `pcy`).
pub open spec fn far_from(k: (i32, i32), pcx: int, pcy: int) -> bool {
    k.0 < pcx - CHUNK_R || k.0 > pcx + CHUNK_R || k.1 < pcy - CHUNK_R || k.1 > pcy + CHUNK_R
}

/// The `n`-th key (0..25) of the window around chunk (`pcx`, `pcy`), row by
/// row from the north-west.
pub open spec fn window_key(pcx: int, pcy: int, n: int) -> (i32, i32) {
    ((pcx - CHUNK_R + n % 5) as i32, (pcy - CHUNK_R + n / 5) as i32)
}

/// All keys of the window, in load order.
pub open spec fn window_keys(pcx: int, pcy: int) -> Seq<(i32, i32)> {
    Seq::new(25, |n: int| window_key(pcx, pcy, n))
}

/// The keys among the first `n` of `keys` that are missing from `present`,
/// taking at most two (the per-frame load budget).
pub open spec fn picked(keys: Seq<(i32, i32)>, present: Set<(i32, i32)>, n: nat) -> Seq<(i32, i32)>
    decreases n,
{
    if n == 0 {
        Seq::empty()
    } else {
        let prev = picked(keys, present, (n - 1) as nat);
        if prev.len() < 2 && !present.contains(keys[n - 1]) {
            prev.push(keys[n - 1])
        } else {
            prev
        }
    }
}

/// What `picked` takes: at most two keys, each one of the first `n` keys and
/// missing from `present`, without repeats; and while fewer than two are
/// taken, every one of the first `n` keys is present or taken.
pub proof fn lemma_picked(keys: Seq<(i32, i32)>, present: Set<(i32, i32)>, n: nat)
    requires
        n <= keys.len(),
        keys.no_duplicates(),
    ensures
        picked(keys, present, n).len() <= 2,
        picked(keys, present, n).no_duplicates(),
        forall|k: (i32, i32)| #[trigger] picked(keys, present, n).contains(k) ==> !present.contains(k)
            && exists|j: int| 0 <= j < n && keys[j] == k,
        picked(keys, present, n).len() < 2 ==> forall|j: int| 0 <= j < n ==> present.contains(#[trigger] keys[j])
            || picked(keys, present, n).contains(keys[j]),
    decreases n,
{
    if n > 0 {
        lemma_picked(keys, present, (n - 1) as nat);
        let prev = picked(keys, present, (n - 1) as nat);
        let cur = picked(keys, present, n);
        if prev.len() < 2 && !present.contains(keys[n - 1]) {
            assert forall|k: (i32, i32)| #[trigger] cur.contains(k) implies !present.contains(k)
                && exists|j: int| 0 <= j < n && keys[j] == k by {
                if k != keys[n - 1] {
                    assert(prev.contains(k));
                    let j = choose|j: int| 0 <= j < n - 1 && keys[j] == k;
                    assert(0 <= j < n && keys[j] == k);
                } else {
                    assert(keys[n - 1] == k);
                }
            }
            assert forall|a: int, b: int| 0 <= a < b < cur.len() implies cur[a] != cur[b] by {
                if b == cur.len() - 1 {
                    assert(prev.contains(cur[a]));
                    let j = choose|j: int| 0 <= j < n - 1 && keys[j] == cur[a];
                    assert(keys[j] != keys[n - 1]);
                }
            }
            assert forall|j: int| 0 <= j < n implies present.contains(#[trigger] keys[j]) || cur.contains(keys[j]) by {
                if j < n - 1 {
                    if prev.contains(keys[j]) {
                        let t = choose|t: int| 0 <= t < prev.len() && prev[t] == keys[j];
                        assert(cur[t] == keys[j]);
                    }
                } else {
                    assert(cur[cur.len() - 1] == keys[j]);
                }
            }
        } else {
            assert forall|k: (i32, i32)| #[trigger] cur.contains(k) implies !present.contains(k)
                && exists|j: int| 0 <= j < n && keys[j] == k by {
                let j = choose|j: int| 0 <= j < n - 1 && keys[j] == k;
                assert(0 <= j < n && keys[j] == k);
            }
        }
    }
}

/// Once two keys are taken, scanning further keys takes no more.
/// The window keys around chunk (`pcx`, `pcy`) that view `v` has not loaded.
pub open spec fn missing_window(v: WorldView, pcx: int, pcy: int) -> Set<(i32, i32)> {
    window_keys(pcx, pcy).to_set().filter(|k: (i32, i32)| !v.chunks.contains_key(k))
}

/// One streaming call from chunk (`pcx`, `pcy`) took `old` to `new`, loading
/// `loaded`: the chunks kept are the loaded ones inside the window, and the
/// chunks loaded are the first (at most two) missing window keys.
pub open spec fn stream_step(old: WorldView, new: WorldView, pcx: int, pcy: int, loaded: Seq<(i32, i32)>) -> bool {
    let kept = old.chunks.dom().filter(|k: (i32, i32)| !far_from(k, pcx, pcy));
    &&& loaded == picked(window_keys(pcx, pcy), kept, 25)
    &&& forall|k: (i32, i32)| #[trigger] new.chunks.contains_key(k) == (kept.contains(k) || loaded.contains(k))
}

/// Window bounds that keep every window key an exact `i32` pair.
pub open spec fn window_ok(pcx: int, pcy: int) -> bool {
    &&& chunk_key_ok(pcx - CHUNK_R)
    &&& chunk_key_ok(pcx + CHUNK_R)
    &&& chunk_key_ok(pcy - CHUNK_R)
    &&& chunk_key_ok(pcy + CHUNK_R)
}

/// One streaming call either loads two missing window chunks, leaving two
/// fewer missing, or leaves none missing.
proof fn lemma_stream_step_progress(old: WorldView, new: WorldView, pcx: int, pcy: int, loaded: Seq<(i32, i32)>)
    requires
        window_ok(pcx, pcy),
        stream_step(old, new, pcx, pcy, loaded),
    ensures
        missing_window(old, pcx, pcy).finite(),
        missing_window(new, pcx, pcy).finite(),
        missing_window(old, pcx, pcy).len() <= 25,
        loaded.len() <= 2,
        loaded.len() == 2 ==> missing_window(new, pcx, pcy).len() + 2 == missing_window(old, pcx, pcy).len(),
        loaded.len() < 2 ==> missing_window(new, pcx, pcy).len() == 0,
{
    broadcast use vstd::set::group_set_axioms;
    broadcast use vstd::seq_lib::seq_to_set_is_finite;
    let keys = window_keys(pcx, pcy);
    let kept = old.chunks.dom().filter(|k: (i32, i32)| !far_from(k, pcx, pcy));
    let mo = missing_window(old, pcx, pcy);
    let mn = missing_window(new, pcx, pcy);
    lemma_window_distinct(pcx, pcy);
    lemma_picked(keys, kept, 25);
    let ks = keys.to_set();
    keys.lemma_cardinality_of_set();
    assert(mo.subset_of(ks));
    assert(mn.subset_of(ks));
    vstd::set_lib::lemma_len_subset(mo, ks);
    vstd::set_lib::lemma_len_subset(mn, ks);
    // A window key is loaded in `new` iff it was loaded in `old` or was just loaded.
    assert forall|k: (i32, i32)| #[trigger] ks.contains(k) implies (new.chunks.contains_key(k) == (
    old.chunks.contains_key(k) || loaded.contains(k))) by {
        let j = choose|j: int| 0 <= j < keys.len() && keys[j] == k;
        assert(!far_from(keys[j], pcx, pcy));
    }
    if loaded.len() < 2 {
        assert forall|k: (i32, i32)| !#[trigger] mn.contains(k) by {
            if ks.contains(k) {
                let j = choose|j: int| 0 <= j < keys.len() && keys[j] == k;
                assert(kept.contains(keys[j]) || loaded.contains(keys[j]));
            }
        }
        assert(mn =~= Set::<(i32, i32)>::empty());
    }
    if loaded.len() == 2 {
        let a = loaded[0];
        let b = loaded[1];
        assert(loaded.contains(a));
        assert(loaded.contains(b));
        assert(a != b);
        let ja = choose|j: int| 0 <= j < 25 && keys[j] == a;
        let jb = choose|j: int| 0 <= j < 25 && keys[j] == b;
        assert(!far_from(keys[ja], pcx, pcy));
        assert(!far_from(keys[jb], pcx, pcy));
        assert(ks.contains(keys[ja]));
        assert(ks.contains(keys[jb]));
        assert(mo.contains(a));
        assert(mo.contains(b));
        assert forall|k: (i32, i32)| #[trigger] mn.contains(k) == mo.remove(a).remove(b).contains(k) by {
            if ks.contains(k) {
                if loaded.contains(k) {
                    let i = choose|i: int| 0 <= i < loaded.len() && loaded[i] == k;
                    assert(k == a || k == b);
                }
            }
        }
        assert(mn =~= mo.remove(a).remove(b));
    }
}

/// After `t` streaming calls from one chunk, no window chunk is missing or
/// at most 25 - 2t are.
proof fn lemma_stream_after(vs: Seq<WorldView>, loads: Seq<Seq<(i32, i32)>>, pcx: int, pcy: int, t: int)
    requires
        window_ok(pcx, pcy),
        vs.len() == 14,
        loads.len() == 13,
        forall|u: int| 0 <= u < 13 ==> stream_step(vs[u], vs[u + 1], pcx, pcy, #[trigger] loads[u]),
        0 <= t <= 13,
    ensures
        missing_window(vs[t], pcx, pcy).finite(),
        missing_window(vs[t], pcx, pcy).len() == 0 || missing_window(vs[t], pcx, pcy).len() <= 25 - 2 * t,
    decreases t,
{
    if t == 0 {
        lemma_stream_step_progress(vs[0], vs[1], pcx, pcy, loads[0]);
    } else {
        lemma_stream_after(vs, loads, pcx, pcy, t - 1);
        lemma_stream_step_progress(vs[t - 1], vs[t], pcx, pcy, loads[t - 1]);
    }
}

/// Streaming from one chunk fills its whole 5x5 window within 13 calls:
/// each call loads two missing window chunks, until none is missing.
pub proof fn lemma_stream_fills_window(
    vs: Seq<WorldView>,
    loads: Seq<Seq<(i32, i32)>>,
    pcx: int,
    pcy: int,
)
    requires
        window_ok(pcx, pcy),
        vs.len() == 14,
        loads.len() == 13,
        forall|t: int| 0 <= t < 13 ==> stream_step(vs[t], vs[t + 1], pcx, pcy, #[trigger] loads[t]),
    ensures
        forall|n: int| 0 <= n < 25 ==> vs[13].chunks.contains_key(#[trigger] window_key(pcx, pcy, n)),
{
    broadcast use vstd::set::group_set_axioms;
    lemma_stream_after(vs, loads, pcx, pcy, 13);
    let m = missing_window(vs[13], pcx, pcy);
    assert(m.len() == 0);
    assert forall|n: int| 0 <= n < 25 implies vs[13].chunks.contains_key(#[trigger] window_key(pcx, pcy, n)) by {
        let keys = window_keys(pcx, pcy);
        assert(keys[n] == window_key(pcx, pcy, n));
        assert(keys.to_set().contains(keys[n]));
        if !vs[13].chunks.contains_key(keys[n]) {
            assert(m.contains(keys[n]));
        }
    }
}

/// A streaming call made while at most two chunks of the window are missing
/// leaves the whole window loaded.
pub proof fn lemma_stream_completes_window(
    old: WorldView,
    new: WorldView,
    pcx: int,
    pcy: int,
    loaded: Seq<(i32, i32)>,
)
    requires
        window_ok(pcx, pcy),
        stream_step(old, new, pcx, pcy, loaded),
        missing_window(old, pcx, pcy).finite(),
        missing_window(old, pcx, pcy).len() <= 2,
    ensures
        forall|k: (i32, i32)| !far_from(k, pcx, pcy) ==> #[trigger] new.chunks.contains_key(k),
{
    broadcast use vstd::set::group_set_axioms;
    lemma_stream_step_progress(old, new, pcx, pcy, loaded);
    lemma_window_distinct(pcx, pcy);
    let m = missing_window(new, pcx, pcy);
    assert(m.len() == 0);
    assert forall|k: (i32, i32)| !far_from(k, pcx, pcy) implies #[trigger] new.chunks.contains_key(k) by {
        let keys = window_keys(pcx, pcy);
        assert(keys.contains(k));
        assert(keys.to_set().contains(k));
        if !new.chunks.contains_key(k) {
            assert(m.contains(k));
        }
    }
}

proof fn lemma_picked_full(keys: Seq<(i32, i32)>, present: Set<(i32, i32)>, n: nat, m: nat)
    requires
        n <= m,
        picked(keys, present, n).len() >= 2,
    ensures
        picked(keys, present, m) == picked(keys, present, n),
    decreases m - n,
{
    if m > n {
        lemma_picked_full(keys, present, n, (m - 1) as nat);
    }
}

proof fn lemma_window_distinct(pcx: int, pcy: int)
    requires
        chunk_key_ok(pcx - CHUNK_R),
        chunk_key_ok(pcx + CHUNK_R),
        chunk_key_ok(pcy - CHUNK_R),
        chunk_key_ok(pcy + CHUNK_R),
    ensures
        window_keys(pcx, pcy).no_duplicates(),
        forall|n: int| 0 <= n < 25 ==> !far_from(#[trigger] window_keys(pcx, pcy)[n], pcx, pcy)
            && chunk_key_ok(window_keys(pcx, pcy)[n].0 as int) && chunk_key_ok(window_keys(pcx, pcy)[n].1 as int),
        forall|k: (i32, i32)| !far_from(k, pcx, pcy) ==> #[trigger] window_keys(pcx, pcy).contains(k),
{
    let w = window_keys(pcx, pcy);
    assert forall|a: int, b: int| 0 <= a < b < w.len() implies w[a] != w[b] by {
        assert(w[a] == window_key(pcx, pcy, a));
        assert(w[b] == window_key(pcx, pcy, b));
    }
    assert forall|k: (i32, i32)| !far_from(k, pcx, pcy) implies #[trigger] w.contains(k) by {
        let n = (k.1 - (pcy - 2)) * 5 + (k.0 - (pcx - 2));
        assert(w[n] == window_key(pcx, pcy, n));
        assert(w[n] == k);
    }
}

/// The spawn point of every world: the centre of chunk (0, 0).
pub open spec fn spec_spawn() -> (i64, i64) {
    (400i64, -400i64)
}

impl World {
    /// Internal consistency: a sane spawn point, and every stored chunk kept
    /// under the code of its own key and being the generator's output for
    /// that key, hence valid.
    pub closed spec fn wf(&self) -> bool {
        &&& spawn_ok(self.spawn_x as int, self.spawn_y as int)
        &&& forall|u: u64|
            #[trigger] self.chunks@.contains_key(u) ==> {
                let c = self.chunks@[u];
                &&& key_code(key_of(c)) == u
                &&& chunk_key_ok(c.cx as int)
                &&& chunk_key_ok(c.cy as int)
                &&& data_of(c) == spec_gen_chunk(c.cx, c.cy, self.seed, self.scene, self.spawn_x, self.spawn_y)
                &&& chunk_valid(
                    c.cells@,
                    c.props@,
                    c.cx as int,
                    c.cy as int,
                    self.scene,
                    self.spawn_x as int,
                    self.spawn_y as int,
                )
            }
    }

    /// In a well-formed world the chunk stored under the code of key `k` has
    /// key `k`.
    proof fn lemma_stored_key(&self, k: (i32, i32))
        requires
            self.wf(),
            self.chunks@.contains_key(key_code(k)),
        ensures
            key_of(self.chunks@[key_code(k)]) == k,
            self@.chunks.contains_key(k),
            self@.chunks[k] == data_of(self.chunks@[key_code(k)]),
    {
        lemma_key_code_injective(key_of(self.chunks@[key_code(k)]), k);
    }

    /// A well-formed world has only valid chunks loaded.
    pub proof fn lemma_wf_chunks_valid(&self)
        requires
            self.wf(),
        ensures
            chunks_valid(self@),
    {
        assert forall|k: (i32, i32)| #[trigger] self@.chunks.contains_key(k) implies chunk_key_ok(k.0 as int)
            && chunk_key_ok(k.1 as int) && self@.chunks[k] == spec_gen_chunk(
            k.0,
            k.1,
            self@.seed,
            self@.scene,
            self@.spawn.0,
            self@.spawn.1,
        ) && chunk_valid(
            self@.chunks[k].0,
            self@.chunks[k].1,
            k.0 as int,
            k.1 as int,
            self@.scene,
            self@.spawn.0 as int,
            self@.spawn.1 as int,
        ) by {
            self.lemma_stored_key(k);
        }
    }

    /// A fresh streaming world for `seed` and `scene`: spawn at the centre of
    /// chunk (0, 0), no chunks loaded yet.
    pub fn from_seed(seed: u64, scene: Scene) -> (w: World)
        ensures
            w.wf(),
            w@.seed == seed,
            w@.scene == scene,
            w@.spawn == spec_spawn(),
            w@.chunks == Map::<(i32, i32), (Seq<Cell>, Seq<Prop>)>::empty(),
    {
        let w = World { seed, scene, spawn_x: 400, spawn_y: -400, chunks: HashMap::new() };
        assert(w@.chunks =~= Map::<(i32, i32), (Seq<Cell>, Seq<Prop>)>::empty());
        w
    }

    pub fn seed(&self) -> (r: u64)
        ensures
            r == self@.seed,
    {
        self.seed
    }

    pub fn scene(&self) -> (r: Scene)
        ensures
            r == self@.scene,
    {
        self.scene
    }

    /// Spawn point in world units (x, y).
    pub fn spawn(&self) -> (r: (i64, i64))
        ensures
            r == self@.spawn,
    {
        (self.spawn_x, self.spawn_y)
    }

    /// Centre of tile (`gc`, `gr`) in world units; rows run down the screen,
    /// so the y of a row is negative.
    pub fn tile_center(&self, gc: i32, gr: i32) -> (r: (i64, i64))
        ensures
            r.0 == tile_mid(gc as int),
            r.1 == -tile_mid(gr as int),
    {
        ((gc as i64) * 40 + 20, -((gr as i64) * 40 + 20))
    }

    /// Is chunk (`cx`, `cy`) loaded?
    pub fn has_chunk(&self, cx: i32, cy: i32) -> (r: bool)
        requires
            self.wf(),
        ensures
            r == self@.chunks.contains_key((cx, cy)),
    {
        self.chunks.contains_key(&pack_key(cx, cy))
    }

    /// The loaded chunk (`cx`, `cy`), if any.
    pub fn chunk(&self, cx: i32, cy: i32) -> (r: Option<&Chunk>)
        requires
            self.wf(),
        ensures
            r is None ==> !self@.chunks.contains_key((cx, cy)),
            r matches Some(c) ==> self@.chunks.contains_key((cx, cy)) && key_of(*c) == (cx, cy)
                && data_of(*c) == self@.chunks[(cx, cy)],
    {
        let r = self.chunks.get(&pack_key(cx, cy));
        proof {
            if r is Some {
                self.lemma_stored_key((cx, cy));
            }
        }
        r
    }

    /// Is this tile a wall? Tiles in not-yet-loaded chunks read as open floor
    /// (they're always beyond the player's reach until they load).
    pub fn solid(&self, gc: i32, gr: i32) -> (res: bool)
        requires
            self.wf(),
        ensures
            res == tile_solid(self@, gc as int, gr as int),
    {
        let (key, idx) = tile_to_chunk(gc, gr);
        proof {
            self.lemma_wf_chunks_valid();
        }
        match self.chunk(key.0, key.1) {
            Some(c) => c.cells[idx] == Cell::Wall,
            None => false,
        }
    }

    /// Generate chunk (`cx`, `cy`) and record it in the world. Returns false,
    /// changing nothing, when it is already loaded.
    pub fn load_chunk(&mut self, cx: i32, cy: i32) -> (loaded: bool)
        requires
            old(self).wf(),
            chunk_key_ok(cx as int),
            chunk_key_ok(cy as int),
        ensures
            final(self).wf(),
            loaded == !old(self)@.chunks.contains_key((cx, cy)),
            final(self)@.seed == old(self)@.seed,
            final(self)@.scene == old(self)@.scene,
            final(self)@.spawn == old(self)@.spawn,
            final(self)@.chunks.dom() == old(self)@.chunks.dom().insert((cx, cy)),
            forall|k: (i32, i32)| #[trigger] old(self)@.chunks.contains_key(k) ==> final(self)@.chunks[k] == old(self)@.chunks[k],
            loaded ==> final(self)@.chunks[(cx, cy)] == spec_gen_chunk(
                cx,
                cy,
                old(self)@.seed,
                old(self)@.scene,
                old(self)@.spawn.0,
                old(self)@.spawn.1,
            ),
    {
        let code = pack_key(cx, cy);
        if self.chunks.contains_key(&code) {
            assert(old(self)@.chunks.dom().insert((cx, cy)) =~= old(self)@.chunks.dom());
            return false;
        }
        let (cells, props) = gen_chunk(cx, cy, self.seed, self.scene, self.spawn_x, self.spawn_y);
        let c = Chunk { cx, cy, cells, props };
        self.chunks.insert(code, c);
        proof {
            assert forall|k: (i32, i32)| #[trigger] self@.chunks.contains_key(k) == old(self)@.chunks.dom().insert(
                (cx, cy),
            ).contains(k) by {
                lemma_key_code_injective(k, (cx, cy));
            }
            assert(self@.chunks.dom() =~= old(self)@.chunks.dom().insert((cx, cy)));
            assert forall|k: (i32, i32)| #[trigger] old(self)@.chunks.contains_key(k) implies self@.chunks[k]
                == old(self)@.chunks[k] by {
                lemma_key_code_injective(k, (cx, cy));
            }
        }
        true
    }

    /// Drop chunk (`cx`, `cy`) from the world, handing it back if it was
    /// loaded.
    pub fn unload_chunk(&mut self, cx: i32, cy: i32) -> (r: Option<Chunk>)
        requires
            old(self).wf(),
        ensures
            final(self).wf(),
            final(self)@.seed == old(self)@.seed,
            final(self)@.scene == old(self)@.scene,
            final(self)@.spawn == old(self)@.spawn,
            final(self)@.chunks == old(self)@.chunks.remove((cx, cy)),
            r is Some == old(self)@.chunks.contains_key((cx, cy)),
            r matches Some(c) ==> key_of(c) == (cx, cy) && data_of(c) == old(self)@.chunks[(cx, cy)],
    {
        let code = pack_key(cx, cy);
        proof {
            if old(self).chunks@.contains_key(code) {
                old(self).lemma_stored_key((cx, cy));
            }
        }
        let r = self.chunks.remove(&code);
        proof {
            assert forall|k: (i32, i32)| #[trigger] self@.chunks.contains_key(k) == old(self)@.chunks.remove(
                (cx, cy),
            ).contains_key(k) by {
                lemma_key_code_injective(k, (cx, cy));
            }
            assert forall|k: (i32, i32)| #[trigger] self@.chunks.contains_key(k) implies self@.chunks[k]
                == old(self)@.chunks.remove((cx, cy))[k] by {
                lemma_key_code_injective(k, (cx, cy));
            }
            assert(self@.chunks =~= old(self)@.chunks.remove((cx, cy)));
        }
        r
    }

    /// Copy of all props in the chunk containing tile (`gc`, `gr`) and its 8
    /// neighbours, row by row from the north-west.
    pub fn near_props(&self, gc: i32, gr: i32) -> (res: Vec<Prop>)
        requires
            self.wf(),
        ensures
            res@ == near_seq(self@, chunk_of(gc as int), chunk_of(gr as int), 9),
    {
        let (cx, _) = split_coord(gc);
        let (cy, _) = split_coord(gr);
        let mut out: Vec<Prop> = Vec::new();
        let mut n: usize = 0;
        while n < 9
            invariant
                self.wf(),
                n <= 9,
                cx == chunk_of(gc as int),
                cy == chunk_of(gr as int),
                -107374183 <= cx <= 107374183,
                -107374183 <= cy <= 107374183,
                out@ == near_seq(self@, cx as int, cy as int, n as nat),
            decreases 9 - n,
        {
            let kx = cx + (n % 3) as i32 - 1;
            let ky = cy + (n / 3) as i32 - 1;
            assert((kx, ky) == near_key(cx as int, cy as int, n as int));
            match self.chunk(kx, ky) {
                Some(c) => {
                    let props = &c.props;
                    let ghost before = out@;
                    let mut j: usize = 0;
                    while j < props.len()
                        invariant
                            j <= props@.len(),
                            out@ == before + props@.subrange(0, j as int),
                        decreases props.len() - j,
                    {
                        out.push(props[j]);
                        j += 1;
                        assert(props@.subrange(0, j as int) =~= props@.subrange(0, j - 1).push(props@[j - 1]));
                    }
                    assert(props@.subrange(0, props@.len() as int) =~= props@);
                },
                None => {
                    assert(out@ =~= out@ + Seq::<Prop>::empty());
                },
            }
            n += 1;
        }
        out
    }

    /// Stream chunks around the player standing on tile (`pc`, `pr`): drop
    /// every loaded chunk outside the (2R+1)^2 window around the player's
    /// chunk, then load up to two missing window chunks (row by row from the
    /// north-west; the rest follow on later calls). Returns the keys dropped
    /// and the keys loaded.
    pub fn stream_chunks(&mut self, pc: i32, pr: i32) -> (res: (Vec<(i32, i32)>, Vec<(i32, i32)>))
        requires
            old(self).wf(),
            chunk_key_ok(chunk_of(pc as int) - CHUNK_R),
            chunk_key_ok(chunk_of(pc as int) + CHUNK_R),
            chunk_key_ok(chunk_of(pr as int) - CHUNK_R),
            chunk_key_ok(chunk_of(pr as int) + CHUNK_R),
        ensures
            final(self).wf(),
            final(self)@.seed == old(self)@.seed,
            final(self)@.scene == old(self)@.scene,
            final(self)@.spawn == old(self)@.spawn,
            ({
                let pcx = chunk_of(pc as int);
                let pcy = chunk_of(pr as int);
                let kept = old(self)@.chunks.dom().filter(|k: (i32, i32)| !far_from(k, pcx, pcy));
                &&& res.0@.no_duplicates()
                &&& forall|k: (i32, i32)| #[trigger] res.0@.contains(k) == (old(self)@.chunks.contains_key(k)
                    && far_from(k, pcx, pcy))
                &&& res.1@ == picked(window_keys(pcx, pcy), kept, 25)
                &&& res.1@.len() <= 2
                &&& forall|k: (i32, i32)| #[trigger] final(self)@.chunks.contains_key(k) == (kept.contains(k)
                    || res.1@.contains(k))
                &&& forall|k: (i32, i32)| #[trigger] kept.contains(k) ==> final(self)@.chunks[k]
                    == old(self)@.chunks[k]
                &&& forall|k: (i32, i32)| #[trigger] final(self)@.chunks.contains_key(k) ==> !far_from(k, pcx, pcy)
                &&& res.1@.len() < 2 ==> forall|k: (i32, i32)| !far_from(k, pcx, pcy)
                    ==> #[trigger] final(self)@.chunks.contains_key(k)
            }),
            stream_step(old(self)@, final(self)@, chunk_of(pc as int), chunk_of(pr as int), res.1@),
            chunks_valid(final(self)@),
    {
        let (pcx, _) = split_coord(pc);
        let (pcy, _) = split_coord(pr);
        let ghost kept = old(self)@.chunks.dom().filter(|k: (i32, i32)| !far_from(k, pcx as int, pcy as int));
        // Unload anything outside the window: first gather the far keys,
        // then drop them.
        let mut far: Vec<(i32, i32)> = Vec::new();
        for code in it: self.chunks.keys()
            invariant
                pcx == chunk_of(pc as int),
                pcy == chunk_of(pr as int),
                it.seq().unref().to_set() == self.chunks@.dom(),
                forall|k: (i32, i32)| #[trigger] far@.contains(k) ==> far_from(k, pcx as int, pcy as int),
                forall|u: u64|
                    #[trigger] self.chunks@.contains_key(u) && far_from(key_of(self.chunks@[u]), pcx as int, pcy as int)
                        && !far@.contains(key_of(self.chunks@[u])) ==> exists|j: int|
                        it.index() <= j < it.seq().unref().len() && #[trigger] it.seq().unref()[j] == u,
            ensures
                forall|u: u64|
                    #[trigger] self.chunks@.contains_key(u) && far_from(key_of(self.chunks@[u]), pcx as int, pcy as int)
                        ==> far@.contains(key_of(self.chunks@[u])),
        {
            let ghost far0 = far@;
            match self.chunks.get(code) {
                Some(c) => {
                    let cx = c.cx;
                    let cy = c.cy;
                    if cx < pcx - CHUNK_R || cx > pcx + CHUNK_R || cy < pcy - CHUNK_R || cy > pcy + CHUNK_R {
                        far.push((cx, cy));
                    }
                },
                None => {},
            }
            proof {
                broadcast use vstd::seq_lib::group_seq_properties;
                assert forall|u: u64|
                    #[trigger] self.chunks@.contains_key(u) && far_from(key_of(self.chunks@[u]), pcx as int, pcy as int)
                        && !far@.contains(key_of(self.chunks@[u])) implies exists|j: int|
                        it.index() + 1 <= j < it.seq().unref().len() && #[trigger] it.seq().unref()[j] == u by {
                    assert(!far0.contains(key_of(self.chunks@[u])));
                    let j = choose|j: int| it.index() <= j < it.seq().unref().len() && #[trigger] it.seq().unref()[j] == u;
                    if j == it.index() {
                        assert(it.seq()[it.index()] == code);
                        assert(it.seq().unref()[j] == *it.seq()[j]);
                        assert(it.seq().unref()[j] == *code);
                    }
                    assert(it.index() + 1 <= j);
                }
            }
        }
        proof {
            assert forall|k: (i32, i32)| old(self)@.chunks.contains_key(k) && far_from(k, pcx as int, pcy as int)
                implies #[trigger] far@.contains(k) by {
                self.lemma_stored_key(k);
            }
        }
        let mut unloaded: Vec<(i32, i32)> = Vec::new();
        let mut j: usize = 0;
        while j < far.len()
            invariant
                self.wf(),
                self@.seed == old(self)@.seed,
                self@.scene == old(self)@.scene,
                self@.spawn == old(self)@.spawn,
                j <= far@.len(),
                pcx == chunk_of(pc as int),
                pcy == chunk_of(pr as int),
                forall|k: (i32, i32)| #[trigger] far@.contains(k) ==> far_from(k, pcx as int, pcy as int),
                forall|k: (i32, i32)| old(self)@.chunks.contains_key(k) && far_from(k, pcx as int, pcy as int)
                    ==> #[trigger] far@.contains(k),
                forall|k: (i32, i32)| #[trigger] self@.chunks.contains_key(k) ==> old(self)@.chunks.contains_key(k)
                    && self@.chunks[k] == old(self)@.chunks[k],
                forall|k: (i32, i32)| old(self)@.chunks.contains_key(k) && !far_from(k, pcx as int, pcy as int)
                    ==> #[trigger] self@.chunks.contains_key(k),
                forall|i: int| 0 <= i < j ==> !self@.chunks.contains_key(#[trigger] far@[i]),
                forall|k: (i32, i32)| #[trigger] unloaded@.contains(k) == (old(self)@.chunks.contains_key(k)
                    && !self@.chunks.contains_key(k)),
                unloaded@.no_duplicates(),
            decreases far.len() - j,
        {
            let k = far[j];
            let ghost prev_unl = unloaded@;
            let ghost pre = self@.chunks;
            let r = self.unload_chunk(k.0, k.1);
            match r {
                Some(_) => {
                    proof {
                        assert(!prev_unl.contains(k));
                    }
                    unloaded.push(k);
                    proof {
                        broadcast use vstd::seq_lib::group_seq_properties;
                        assert(unloaded@ == prev_unl.push(k));
                        assert forall|q: (i32, i32)| #[trigger] unloaded@.contains(q) == (old(self)@.chunks.contains_key(q)
                            && !self@.chunks.contains_key(q)) by {
                            assert(unloaded@.contains(q) == (prev_unl.contains(q) || q == k));
                        }
                    }
                },
                None => {},
            }
            proof {
                assert forall|i: int| 0 <= i < j + 1 implies !self@.chunks.contains_key(#[trigger] far@[i]) by {
                    if i < j {
                        assert(!pre.contains_key(far@[i]));
                    }
                }
                assert forall|q: (i32, i32)| old(self)@.chunks.contains_key(q) && !far_from(q, pcx as int, pcy as int)
                    implies #[trigger] self@.chunks.contains_key(q) by {
                    assert(pre.contains_key(q));
                    if q == k {
                        assert(far@.contains(k));
                    }
                }
            }
            j += 1;
        }
        proof {
            assert forall|k: (i32, i32)| #[trigger] self@.chunks.contains_key(k) == kept.contains(k) by {
                if old(self)@.chunks.contains_key(k) && far_from(k, pcx as int, pcy as int) {
                    assert(far@.contains(k));
                    let i = choose|i: int| 0 <= i < far@.len() && far@[i] == k;
                    assert(!self@.chunks.contains_key(far@[i]));
                }
            }
            assert forall|k: (i32, i32)| #[trigger] self@.chunks.contains_key(k) implies !far_from(k, pcx as int, pcy as int) by {
                assert(kept.contains(k));
            }
            assert forall|k: (i32, i32)| #[trigger] kept.contains(k) implies self@.chunks[k] == old(self)@.chunks[k] by {
                assert(self@.chunks.contains_key(k));
            }
            assert forall|k: (i32, i32)| #[trigger] unloaded@.contains(k) implies far_from(k, pcx as int, pcy as int) by {
                if !far_from(k, pcx as int, pcy as int) {
                    assert(self@.chunks.contains_key(k));
                }
            }
        }
        // Load a couple of missing chunks per frame (amortised).
        let ghost wk = window_keys(pcx as int, pcy as int);
        proof {
            lemma_window_distinct(pcx as int, pcy as int);
        }
        let mut loaded: Vec<(i32, i32)> = Vec::new();
        let mut n: usize = 0;
        while n < 25 && loaded.len() < 2
            invariant
                self.wf(),
                self@.seed == old(self)@.seed,
                self@.scene == old(self)@.scene,
                self@.spawn == old(self)@.spawn,
                n <= 25,
                pcx == chunk_of(pc as int),
                pcy == chunk_of(pr as int),
                chunk_key_ok(pcx - CHUNK_R),
                chunk_key_ok(pcx + CHUNK_R),
                chunk_key_ok(pcy - CHUNK_R),
                chunk_key_ok(pcy + CHUNK_R),
                wk == window_keys(pcx as int, pcy as int),
                wk.no_duplicates(),
                forall|t: int| 0 <= t < 25 ==> !far_from(#[trigger] wk[t], pcx as int, pcy as int)
                    && chunk_key_ok(wk[t].0 as int) && chunk_key_ok(wk[t].1 as int),
                loaded@ == picked(wk, kept, n as nat),
                forall|k: (i32, i32)| #[trigger] loaded@.contains(k) ==> exists|j: int| 0 <= j < n && wk[j] == k,
                forall|k: (i32, i32)| #[trigger] self@.chunks.contains_key(k) == (kept.contains(k) || loaded@.contains(k)),
                forall|k: (i32, i32)| #[trigger] kept.contains(k) ==> self@.chunks[k] == old(self)@.chunks[k],
                forall|k: (i32, i32)| #[trigger] kept.contains(k) ==> !far_from(k, pcx as int, pcy as int),
            decreases 25 - n,
        {
            let kx = pcx - CHUNK_R + (n % 5) as i32;
            let ky = pcy - CHUNK_R + (n / 5) as i32;
            assert((kx, ky) == wk[n as int]);
            proof {
                if loaded@.contains((kx, ky)) {
                    let j = choose|j: int| 0 <= j < n && wk[j] == (kx, ky);
                    assert(wk[j] != wk[n as int]);
                }
            }
            if !self.has_chunk(kx, ky) {
                let ghost prev_loaded = loaded@;
                let ghost pre = self@.chunks;
                self.load_chunk(kx, ky);
                loaded.push((kx, ky));
                proof {
                    broadcast use vstd::seq_lib::group_seq_properties;
                    assert(loaded@ == prev_loaded.push((kx, ky)));
                    assert forall|k: (i32, i32)| #[trigger] loaded@.contains(k) implies exists|j: int| 0 <= j < n + 1 && wk[j] == k by {
                        assert(loaded@.contains(k) == (prev_loaded.contains(k) || k == (kx, ky)));
                        if k != (kx, ky) {
                            let j = choose|j: int| 0 <= j < n && wk[j] == k;
                            assert(0 <= j < n + 1 && wk[j] == k);
                        } else {
                            assert(wk[n as int] == k);
                        }
                    }
                    assert forall|k: (i32, i32)| #[trigger] self@.chunks.contains_key(k) == (kept.contains(k) || loaded@.contains(k)) by {
                        assert(loaded@.contains(k) == (prev_loaded.contains(k) || k == (kx, ky)));
                    }
                    assert forall|k: (i32, i32)| #[trigger] kept.contains(k) implies self@.chunks[k] == old(self)@.chunks[k] by {
                        assert(pre.contains_key(k));
                    }
                }
            } else {
                proof {
                    assert forall|k: (i32, i32)| #[trigger] loaded@.contains(k) implies exists|j: int| 0 <= j < n + 1 && wk[j] == k by {
                        let j = choose|j: int| 0 <= j < n && wk[j] == k;
                        assert(0 <= j < n + 1 && wk[j] == k);
                    }
                }
            }
            n += 1;
        }
        proof {
            lemma_picked(wk, kept, 25);
            lemma_picked(wk, kept, n as nat);
            if n < 25 {
                lemma_picked_full(wk, kept, n as nat, 25);
            }
            assert forall|k: (i32, i32)| #[trigger] self@.chunks.contains_key(k) implies !far_from(k, pcx as int, pcy as int) by {
                if loaded@.contains(k) {
                    let j = choose|j: int| 0 <= j < n && wk[j] == k;
                }
            }
            if loaded@.len() < 2 {
                assert forall|k: (i32, i32)| !far_from(k, pcx as int, pcy as int) implies #[trigger] self@.chunks.contains_key(k) by {
                    assert(wk.contains(k));
                    let j = choose|j: int| 0 <= j < wk.len() && wk[j] == k;
                    assert(kept.contains(wk[j]) || picked(wk, kept, 25).contains(wk[j]));
                }
            }
        }
        proof {
            self.lemma_wf_chunks_valid();
        }
        (unloaded, loaded)
    }
}

/// The spawn area is kept clear: no tile within three tiles of the spawn tile
/// is ever a wall, whichever chunks are loaded.
pub proof fn lemma_spawn_area_open(w: &World, gc: int, gr: int)
    requires
        w.wf(),
        spawn_tile_x(w@.spawn.0 as int) - 3 <= gc <= spawn_tile_x(w@.spawn.0 as int) + 3,
        spawn_tile_y(w@.spawn.1 as int) - 3 <= gr <= spawn_tile_y(w@.spawn.1 as int) + 3,
    ensures
        !tile_solid(w@, gc, gr),
{
    w.lemma_wf_chunks_valid();
    let k = key_of_tile(gc, gr);
    if w@.chunks.contains_key(k) {
        lemma_tile_decomposes(gc);
        lemma_tile_decomposes(gr);
        assert(chunk_of(gc) == k.0 as int && chunk_of(gr) == k.1 as int);
        assert(w@.chunks[k].0[local_index(local_of(gc), local_of(gr))] == Cell::Floor);
    }
}

/// Roads run between chunks: a tile among the first `m` or the last `m + 1`
/// columns or rows of its chunk, with `m` the scene's margin (three in the
/// streets and the park, two in the neighborhood), is never a wall.
pub proof fn lemma_chunk_edges_open(w: &World, gc: int, gr: int)
    requires
        w.wf(),
        local_of(gc) < scene_margin(w@.scene) || local_of(gc) > CHUNK - 2 - scene_margin(w@.scene)
            || local_of(gr) < scene_margin(w@.scene) || local_of(gr) > CHUNK - 2 - scene_margin(w@.scene),
    ensures
        !tile_solid(w@, gc, gr),
{
    w.lemma_wf_chunks_valid();
    let k = key_of_tile(gc, gr);
    lemma_tile_decomposes(gc);
    lemma_tile_decomposes(gr);
    lemma_index_parts(local_of(gc), local_of(gr));
    if w@.chunks.contains_key(k) {
        let i = local_index(local_of(gc), local_of(gr));
        assert(0 <= i < 400) by (nonlinear_arith)
            requires
                i == local_of(gr) * 20 + local_of(gc),
                0 <= local_of(gc) < 20,
                0 <= local_of(gr) < 20,
        ;
    }
}

/// A chunk reads the same every time it is streamed in: whichever chunks were
/// generated before it, in whatever order, and however often it was unloaded
/// since, a loaded chunk is the generator's output for its key, and two worlds
/// with the same seed, scene and spawn point that both hold chunk `k` hold the
/// same cells and props for it.
pub proof fn lemma_chunk_reloads_same(a: &World, b: &World, k: (i32, i32))
    requires
        a.wf(),
        b.wf(),
        a@.seed == b@.seed,
        a@.scene == b@.scene,
        a@.spawn == b@.spawn,
        a@.chunks.contains_key(k),
        b@.chunks.contains_key(k),
    ensures
        a@.chunks[k] == spec_gen_chunk(k.0, k.1, a@.seed, a@.scene, a@.spawn.0, a@.spawn.1),
        a@.chunks[k] == b@.chunks[k],
{
    a.lemma_wf_chunks_valid();
    b.lemma_wf_chunks_valid();
}

/// Create a fresh streaming world (no chunks loaded yet) for the scene the
/// player picked, or a random scene when `choice` is `None`, with a random
/// seed.
pub fn new_world(choice: Option<Scene>) -> (w: World)
    ensures
        w.wf(),
        choice matches Some(s) ==> w@.scene == s,
        w@.spawn == spec_spawn(),
        w@.chunks == Map::<(i32, i32), (Seq<Cell>, Seq<Prop>)>::empty(),
{
    let scene = match choice {
        Some(s) => s,
        None => {
            let i = thread_range_usize(0, 3);
            if i == 0 {
                Scene::Streets
            } else if i == 1 {
                Scene::Park
            } else {
                Scene::Neighborhood
            }
        },
    };
    let seed = thread_u64();
    World::from_seed(seed, scene)
}

} // verus!
