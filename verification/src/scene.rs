//! The environments a run can take place in, and the scenario picker.

use vstd::prelude::*;

verus! {

/// Which environment this run generates. Each picks a different wall layout,
/// ground colour and prop mix.
#[derive(Clone, Copy, PartialEq, Eq, Structural, Debug)]
pub enum Scene {
    Streets,
    Park,
    Neighborhood,
}

/// Display name of each scene.
pub open spec fn scene_name(s: Scene) -> Seq<char> {
    match s {
        Scene::Streets => "Downtown Streets"@,
        Scene::Park => "City Park"@,
        Scene::Neighborhood => "The Neighborhood"@,
    }
}

impl Scene {
    pub fn label(self) -> (res: &'static str)
        ensures
            res@ == scene_name(self),
    {
        match self {
            Scene::Streets => "Downtown Streets",
            Scene::Park => "City Park",
            Scene::Neighborhood => "The Neighborhood",
        }
    }
}

/// The scenario selector's order: Random → Streets → Park → Neighborhood → Random.
pub open spec fn next_choice(c: Option<Scene>) -> Option<Scene> {
    match c {
        None => Some(Scene::Streets),
        Some(Scene::Streets) => Some(Scene::Park),
        Some(Scene::Park) => Some(Scene::Neighborhood),
        Some(Scene::Neighborhood) => None,
    }
}

/// Advance the menu's scenario choice one step (`None` = random each run).
pub fn cycle_scene_choice(c: Option<Scene>) -> (res: Option<Scene>)
    ensures
        res == next_choice(c),
{
    match c {
        None => Some(Scene::Streets),
        Some(Scene::Streets) => Some(Scene::Park),
        Some(Scene::Park) => Some(Scene::Neighborhood),
        Some(Scene::Neighborhood) => None,
    }
}

/// Pressing the scenario button four times brings the choice back to where it
/// started, and every choice (random or a fixed scene) is reached on the way.
pub proof fn lemma_choice_cycle(c: Option<Scene>)
    ensures
        next_choice(next_choice(next_choice(next_choice(c)))) == c,
        c != next_choice(c),
{
}

/// Text of the scenario button for a choice.
pub open spec fn choice_text(c: Option<Scene>) -> Seq<char> {
    match c {
        None => "SCENARIO:  Random"@,
        Some(Scene::Streets) => "SCENARIO:  Downtown Streets"@,
        Some(Scene::Park) => "SCENARIO:  City Park"@,
        Some(Scene::Neighborhood) => "SCENARIO:  The Neighborhood"@,
    }
}

/// The label shown on the scenario-select button.
pub fn scene_label(c: Option<Scene>) -> (res: String)
    ensures
        res@ == choice_text(c),
{
    match c {
        None => "SCENARIO:  Random".to_owned(),
        Some(Scene::Streets) => "SCENARIO:  Downtown Streets".to_owned(),
        Some(Scene::Park) => "SCENARIO:  City Park".to_owned(),
        Some(Scene::Neighborhood) => "SCENARIO:  The Neighborhood".to_owned(),
    }
}

} // verus!
