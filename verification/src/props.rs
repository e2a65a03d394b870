//! Scattered scenery: the kinds of prop, their collider sizes and toughness.

use vstd::prelude::*;
use crate::scene::Scene;

verus! {

/// Scattered scenery. Solid kinds are circular obstacles that block movement,
/// bullets, flames and rolling grenades; bushes are passable cover.
#[derive(Clone, Copy, PartialEq, Eq, Structural, Debug)]
pub enum PropKind {
    Tree,
    Bush,
    Car,
    Van,
    Bench,
    Dumpster,
    Barrel,
    Crate,
    Hydrant,
    Table,
    Sofa,
}

/// Collider radius (world units) and whether the prop blocks movement/shots.
pub open spec fn spec_prop_spec(kind: PropKind) -> (u32, bool) {
    match kind {
        PropKind::Tree => (14, true),
        PropKind::Bush => (17, false),
        PropKind::Car => (30, true),
        PropKind::Van => (35, true),
        PropKind::Bench => (17, true),
        PropKind::Dumpster => (21, true),
        PropKind::Barrel => (10, true),
        PropKind::Crate => (13, true),
        PropKind::Hydrant => (7, true),
        PropKind::Table => (15, true),
        PropKind::Sofa => (19, true),
    }
}

/// Bushes are the only passable props: every other kind blocks movement and
/// shots.
pub proof fn lemma_only_bushes_passable(kind: PropKind)
    ensures
        spec_prop_spec(kind).1 == (kind != PropKind::Bush),
{
}

/// Radius of the collider and whether it blocks movement/shots. Sized close to
/// real-world proportions relative to the ~1.7m-tall player.
pub fn prop_spec(kind: PropKind) -> (res: (u32, bool))
    ensures
        res == spec_prop_spec(kind),
        res.1 == (kind != PropKind::Bush),
{
    match kind {
        PropKind::Tree => (14, true),
        PropKind::Bush => (17, false),
        PropKind::Car => (30, true),
        PropKind::Van => (35, true),
        PropKind::Bench => (17, true),
        PropKind::Dumpster => (21, true),
        PropKind::Barrel => (10, true),
        PropKind::Crate => (13, true),
        PropKind::Hydrant => (7, true),
        PropKind::Table => (15, true),
        PropKind::Sofa => (19, true),
    }
}

/// Destructibility: (hit points, flammable, explodes when destroyed).
pub open spec fn spec_prop_stats(kind: PropKind) -> (u32, bool, bool) {
    match kind {
        PropKind::Tree => (75, true, false),
        PropKind::Bush => (18, true, false),
        PropKind::Car => (130, true, true),
        PropKind::Van => (150, true, true),
        PropKind::Bench => (45, true, false),
        PropKind::Dumpster => (110, true, false),
        PropKind::Barrel => (28, true, true),
        PropKind::Crate => (34, true, false),
        PropKind::Hydrant => (400, false, false),
        PropKind::Table => (32, true, false),
        PropKind::Sofa => (42, true, false),
    }
}

/// Destructibility of a prop: (hit points, flammable, explodes when destroyed).
pub fn prop_stats(kind: PropKind) -> (res: (u32, bool, bool))
    ensures
        res == spec_prop_stats(kind),
{
    match kind {
        PropKind::Tree => (75, true, false),
        PropKind::Bush => (18, true, false),
        PropKind::Car => (130, true, true),
        PropKind::Van => (150, true, true),
        PropKind::Bench => (45, true, false),
        PropKind::Dumpster => (110, true, false),
        PropKind::Barrel => (28, true, true),
        PropKind::Crate => (34, true, false),
        PropKind::Hydrant => (400, false, false),
        PropKind::Table => (32, true, false),
        PropKind::Sofa => (42, true, false),
    }
}

/// The mix of prop kinds a scene scatters (repeats weight the draw).
pub open spec fn scene_kinds(scene: Scene) -> Seq<PropKind> {
    match scene {
        Scene::Park => seq![
            PropKind::Tree, PropKind::Tree, PropKind::Bush, PropKind::Bush,
            PropKind::Bench, PropKind::Barrel, PropKind::Hydrant,
        ],
        Scene::Neighborhood => seq![
            PropKind::Car, PropKind::Car, PropKind::Van, PropKind::Bush, PropKind::Tree,
            PropKind::Bench, PropKind::Sofa, PropKind::Table, PropKind::Crate,
            PropKind::Dumpster, PropKind::Hydrant,
        ],
        Scene::Streets => seq![
            PropKind::Tree, PropKind::Bush, PropKind::Car, PropKind::Van, PropKind::Bench,
            PropKind::Dumpster, PropKind::Barrel, PropKind::Crate, PropKind::Hydrant,
            PropKind::Table, PropKind::Sofa,
        ],
    }
}

/// The prop kinds a scene draws from.
pub fn prop_kinds(scene: Scene) -> (res: Vec<PropKind>)
    ensures
        res@ == scene_kinds(scene),
{
    match scene {
        Scene::Park => vec![
            PropKind::Tree, PropKind::Tree, PropKind::Bush, PropKind::Bush,
            PropKind::Bench, PropKind::Barrel, PropKind::Hydrant,
        ],
        Scene::Neighborhood => vec![
            PropKind::Car, PropKind::Car, PropKind::Van, PropKind::Bush, PropKind::Tree,
            PropKind::Bench, PropKind::Sofa, PropKind::Table, PropKind::Crate,
            PropKind::Dumpster, PropKind::Hydrant,
        ],
        Scene::Streets => vec![
            PropKind::Tree, PropKind::Bush, PropKind::Car, PropKind::Van, PropKind::Bench,
            PropKind::Dumpster, PropKind::Barrel, PropKind::Crate, PropKind::Hydrant,
            PropKind::Table, PropKind::Sofa,
        ],
    }
}

/// How many props each chunk of a scene tries to place.
pub open spec fn scene_prop_target(scene: Scene) -> usize {
    match scene {
        Scene::Park => 9,
        Scene::Neighborhood => 6,
        Scene::Streets => 6,
    }
}

/// How many props each chunk of a scene tries to place.
pub fn prop_target(scene: Scene) -> (res: usize)
    ensures
        res == scene_prop_target(scene),
{
    match scene {
        Scene::Park => 9,
        Scene::Neighborhood => 6,
        Scene::Streets => 6,
    }
}

/// A placed prop collider, in world units (x grows east, y grows north; tile
/// rows grow southward, so a tile's centre has negative y). `turn` is the
/// prop's random facing as a fraction of a full turn, in units of 2^-32.
#[derive(Clone, Copy, PartialEq, Eq, Structural, Debug)]
pub struct Prop {
    pub kind: PropKind,
    pub x: i64,
    pub y: i64,
    pub r: u32,
    pub solid: bool,
    pub turn: u32,
}

} // verus!
