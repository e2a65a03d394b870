use zombies::chunkgen::{chunk_seed, gen_chunk, Cell};
use zombies::grid::{split_coord, tile_to_chunk, CHUNK_CELLS};
use zombies::props::{prop_kinds, prop_spec, prop_target, Prop};
use zombies::scene::Scene;
use zombies::world::{new_world, World};

fn margin(scene: Scene) -> usize {
    match scene {
        Scene::Streets | Scene::Park => 3,
        Scene::Neighborhood => 2,
    }
}

fn dist2(ax: i64, ay: i64, bx: i64, by: i64) -> i64 {
    (ax - bx) * (ax - bx) + (ay - by) * (ay - by)
}

fn check_chunk(cx: i32, cy: i32, seed: u64, scene: Scene, sx: i64, sy: i64) {
    let (cells, props) = gen_chunk(cx, cy, seed, scene, sx, sy);
    assert_eq!(cells.len(), CHUNK_CELLS);
    let m = margin(scene);
    for (i, c) in cells.iter().enumerate() {
        if *c == Cell::Wall {
            let (lx, ly) = (i % 20, i / 20);
            assert!(lx >= m && lx <= 18 - m && ly >= m && ly <= 18 - m, "wall at edge {} {}", lx, ly);
        }
    }
    // spawn area open
    let stx = sx.div_euclid(40);
    let sty = (-sy).div_euclid(40);
    for gr in sty - 3..=sty + 3 {
        for gc in stx - 3..=stx + 3 {
            let ((kx, ky), idx) = tile_to_chunk(gc as i32, gr as i32);
            if kx == cx && ky == cy {
                assert_eq!(cells[idx], Cell::Floor);
            }
        }
    }
    assert!(props.len() <= prop_target(scene));
    let kinds = prop_kinds(scene);
    for p in props.iter() {
        assert!(kinds.contains(&p.kind));
        let (r, solid) = prop_spec(p.kind);
        assert_eq!((p.r, p.solid), (r, solid));
        assert_eq!((p.x - 20).rem_euclid(40), 0);
        assert_eq!((-p.y - 20).rem_euclid(40), 0);
        let gc = (p.x - 20) / 40;
        let gr = (-p.y - 20) / 40;
        let lx = gc - cx as i64 * 20;
        let ly = gr - cy as i64 * 20;
        assert!(lx >= 1 && lx <= 18 && ly >= 1 && ly <= 18);
        assert_eq!(cells[(ly * 20 + lx) as usize], Cell::Floor);
        if p.r > 16 {
            for dy in -1..=1i64 {
                for dx in -1..=1i64 {
                    assert_eq!(cells[((ly + dy) * 20 + lx + dx) as usize], Cell::Floor);
                }
            }
        }
        assert!(dist2(p.x, p.y, sx, sy) >= 130 * 130);
    }
    for i in 0..props.len() {
        for j in i + 1..props.len() {
            let (a, b): (&Prop, &Prop) = (&props[i], &props[j]);
            let need = (a.r + b.r + 14) as i64;
            assert!(dist2(a.x, a.y, b.x, b.y) >= need * need);
        }
    }
}

#[test]
fn generated_chunks_are_valid() {
    for scene in [Scene::Streets, Scene::Park, Scene::Neighborhood] {
        for seed in [0u64, 1, 42, 0xdead_beef, u64::MAX] {
            for (cx, cy) in [(0, 0), (1, 0), (-1, -1), (3, -2), (-5, 7)] {
                check_chunk(cx, cy, seed, scene, 400, -400);
            }
        }
    }
}

#[test]
fn spawn_chunk_keeps_spawn_open_for_other_spawns() {
    check_chunk(0, 0, 7, Scene::Streets, 220, -300);
    check_chunk(2, 1, 9, Scene::Neighborhood, 2 * 800 + 100, -(800 + 420));
}

#[test]
fn chunk_generation_is_deterministic() {
    let a = gen_chunk(2, -3, 1234, Scene::Streets, 400, -400);
    let b = gen_chunk(2, -3, 1234, Scene::Streets, 400, -400);
    assert_eq!(a.0, b.0);
    assert_eq!(a.1, b.1);
}

#[test]
fn chunk_generation_depends_on_seed() {
    // Different seeds draw different layouts somewhere among these chunks.
    let mut differ = false;
    for k in 0..8 {
        let a = gen_chunk(k, 1, 1, Scene::Streets, 400, -400);
        let b = gen_chunk(k, 1, 2, Scene::Streets, 400, -400);
        if a.0 != b.0 || a.1 != b.1 {
            differ = true;
        }
    }
    assert!(differ);
}

#[test]
fn streets_chunks_have_walls_somewhere() {
    let mut walls = 0;
    for k in 0..6 {
        let (cells, _) = gen_chunk(k, k, 99, Scene::Streets, 400, -400);
        walls += cells.iter().filter(|c| **c == Cell::Wall).count();
    }
    assert!(walls > 0);
}

#[test]
fn chunk_seed_mixes_keys() {
    assert_eq!(chunk_seed(0, 0, 5), 5);
    assert_eq!(chunk_seed(1, 0, 0), 0x9E37_79B9_7F4A_7C15);
    assert_eq!(chunk_seed(0, 1, 0), 0xC2B2_AE3D_27D4_EB4F);
    assert_eq!(
        chunk_seed(-1, 0, 0),
        (u64::MAX).wrapping_mul(0x9E37_79B9_7F4A_7C15)
    );
}

#[test]
fn split_coord_handles_negatives() {
    assert_eq!(split_coord(0), (0, 0));
    assert_eq!(split_coord(19), (0, 19));
    assert_eq!(split_coord(20), (1, 0));
    assert_eq!(split_coord(-1), (-1, 19));
    assert_eq!(split_coord(-20), (-1, 0));
    assert_eq!(split_coord(-21), (-2, 19));
}

#[test]
fn tile_to_chunk_indexes_row_major() {
    assert_eq!(tile_to_chunk(0, 0), ((0, 0), 0));
    assert_eq!(tile_to_chunk(3, 2), ((0, 0), 43));
    assert_eq!(tile_to_chunk(-1, -1), ((-1, -1), 399));
    assert_eq!(tile_to_chunk(45, -3), ((2, -1), 17 * 20 + 5));
}

#[test]
fn world_starts_empty_with_spawn_at_chunk_centre() {
    let w = World::from_seed(11, Scene::Park);
    assert_eq!(w.seed(), 11);
    assert_eq!(w.scene(), Scene::Park);
    assert_eq!(w.spawn(), (400, -400));
    assert!(!w.has_chunk(0, 0));
    // Tiles of chunks not loaded read as open.
    assert!(!w.solid(5, 5));
}

#[test]
fn tile_center_is_middle_of_tile() {
    let w = World::from_seed(0, Scene::Streets);
    assert_eq!(w.tile_center(0, 0), (20, -20));
    assert_eq!(w.tile_center(10, 10), (420, -420));
    assert_eq!(w.tile_center(-1, -1), (-20, 20));
}

#[test]
fn loading_a_chunk_matches_the_generator() {
    let mut w = World::from_seed(77, Scene::Neighborhood);
    assert!(w.load_chunk(1, -1));
    assert!(!w.load_chunk(1, -1));
    assert!(w.has_chunk(1, -1));
    let (cells, props) = gen_chunk(1, -1, 77, Scene::Neighborhood, 400, -400);
    let ch = w.chunk(1, -1).unwrap();
    assert_eq!((ch.cx, ch.cy), (1, -1));
    assert_eq!(ch.cells, cells);
    assert_eq!(ch.props, props);
    for ly in 0..20 {
        for lx in 0..20 {
            let gc = 20 + lx;
            let gr = -20 + ly;
            assert_eq!(w.solid(gc, gr), cells[(ly * 20 + lx) as usize] == Cell::Wall);
        }
    }
}

#[test]
fn unloading_hands_the_chunk_back() {
    let mut w = World::from_seed(3, Scene::Streets);
    w.load_chunk(0, 0);
    let c = w.unload_chunk(0, 0).unwrap();
    assert_eq!((c.cx, c.cy), (0, 0));
    assert!(!w.has_chunk(0, 0));
    assert!(w.unload_chunk(0, 0).is_none());
}

#[test]
fn a_reloaded_chunk_comes_back_the_same() {
    for scene in [Scene::Streets, Scene::Park, Scene::Neighborhood] {
        let mut w = World::from_seed(4242, scene);
        assert!(w.load_chunk(3, -2));
        let first = w.unload_chunk(3, -2).unwrap();
        w.load_chunk(4, -2);
        w.load_chunk(-7, 9);
        assert!(w.load_chunk(3, -2));
        let again = w.chunk(3, -2).unwrap();
        assert_eq!(again.cells, first.cells);
        assert_eq!(again.props, first.props);
    }
}

#[test]
fn load_order_does_not_change_chunks() {
    let keys = [(0, 0), (1, 0), (-1, 2), (5, -5)];
    let mut a = World::from_seed(99, Scene::Park);
    let mut b = World::from_seed(99, Scene::Park);
    for k in keys.iter() {
        a.load_chunk(k.0, k.1);
    }
    for k in keys.iter().rev() {
        b.load_chunk(k.0, k.1);
    }
    for k in keys.iter() {
        let ca = a.chunk(k.0, k.1).unwrap();
        let cb = b.chunk(k.0, k.1).unwrap();
        assert_eq!(ca.cells, cb.cells);
        assert_eq!(ca.props, cb.props);
    }
}

#[test]
fn near_props_gathers_the_3x3_block() {
    let mut w = World::from_seed(5, Scene::Park);
    let mut expected: Vec<Prop> = Vec::new();
    for cy in -1..=1 {
        for cx in -1..=1 {
            w.load_chunk(cx, cy);
        }
    }
    w.load_chunk(5, 5);
    for cy in -1..=1 {
        for cx in -1..=1 {
            expected.extend(w.chunk(cx, cy).unwrap().props.iter().copied());
        }
    }
    assert_eq!(w.near_props(3, 7), expected);
}

#[test]
fn streaming_loads_two_at_a_time_and_drops_far_chunks() {
    let mut w = World::from_seed(21, Scene::Streets);
    w.load_chunk(10, 10);
    let (dropped, loaded) = w.stream_chunks(10, 10);
    assert_eq!(dropped, vec![(10, 10)]);
    assert_eq!(loaded, vec![(-2, -2), (-1, -2)]);
    let mut total = 2;
    loop {
        let (d, l) = w.stream_chunks(10, 10);
        assert!(d.is_empty());
        assert!(l.len() <= 2);
        total += l.len();
        if l.len() < 2 {
            break;
        }
    }
    assert_eq!(total, 25);
    for cy in -2..=2 {
        for cx in -2..=2 {
            assert!(w.has_chunk(cx, cy));
        }
    }
    // Moving two chunks east drops the western columns.
    let (d, _) = w.stream_chunks(50, 10);
    assert_eq!(d.len(), 10);
    assert!(!w.has_chunk(-2, 0));
    assert!(!w.has_chunk(-1, 0));
    assert!(w.has_chunk(0, 0));
}

#[test]
fn new_world_uses_the_chosen_scene() {
    let w = new_world(Some(Scene::Neighborhood));
    assert_eq!(w.scene(), Scene::Neighborhood);
    assert_eq!(w.spawn(), (400, -400));
    let r = new_world(None);
    assert!(matches!(r.scene(), Scene::Streets | Scene::Park | Scene::Neighborhood));
}

#[test]
fn random_worlds_get_fresh_seeds() {
    let a = new_world(Some(Scene::Park)).seed();
    let b = new_world(Some(Scene::Park)).seed();
    let c = new_world(Some(Scene::Park)).seed();
    assert!(a != b || b != c);
}

#[test]
fn props_come_in_several_kinds() {
    let mut kinds = Vec::new();
    for k in 0..6 {
        let (_, props) = gen_chunk(k, -k, 31, Scene::Streets, 400, -400);
        kinds.extend(props.iter().map(|p| p.kind));
    }
    assert!(kinds.len() > 2);
    assert!(kinds.iter().any(|q| *q != kinds[0]));
}

#[test]
fn props_face_different_ways() {
    let mut turns = Vec::new();
    for k in 0..6 {
        let (_, props) = gen_chunk(k, -k, 31, Scene::Park, 400, -400);
        turns.extend(props.iter().map(|p| p.turn));
    }
    assert!(turns.len() > 2);
    assert!(turns.iter().any(|t| *t != turns[0]));
}

#[test]
fn open_chunks_away_from_spawn_get_props() {
    for k in 3..40 {
        let (cells, props) = gen_chunk(k, -k, 77, Scene::Park, 400, -400);
        if cells.iter().all(|c| *c == Cell::Floor) {
            assert!(!props.is_empty());
        }
    }
}

#[test]
fn neighborhood_walls_form_a_house_with_one_door() {
    for k in 2..30 {
        let (cells, _) = gen_chunk(k, k, 5, Scene::Neighborhood, 400, -400);
        let walls: Vec<(usize, usize)> =
            (0..400).filter(|i| cells[*i] == Cell::Wall).map(|i| (i % 20, i / 20)).collect();
        if walls.is_empty() {
            continue;
        }
        let x0 = walls.iter().map(|w| w.0).min().unwrap();
        let x1 = walls.iter().map(|w| w.0).max().unwrap();
        let y0 = walls.iter().map(|w| w.1).min().unwrap();
        let y1 = walls.iter().map(|w| w.1).max().unwrap();
        assert!((7..10).contains(&(x1 - x0 + 1)) && (6..8).contains(&(y1 - y0 + 1)));
        let mut gaps = 0;
        for y in y0..=y1 {
            for x in x0..=x1 {
                let on_ring = x == x0 || x == x1 || y == y0 || y == y1;
                let wall = cells[y * 20 + x] == Cell::Wall;
                if on_ring && !wall {
                    gaps += 1;
                    assert!(y == y1 && x >= x0 + 2 && x + 2 <= x1);
                }
                if !on_ring {
                    assert!(!wall);
                }
            }
        }
        assert_eq!(gaps, 1);
    }
}
