use zombies::flow::{
    button_target, check_death, menu_key, press_any_key, Cheat, Cheats, GameState, MenuButton, MenuKey,
};
use zombies::props::{prop_kinds, prop_spec, prop_stats, prop_target, PropKind};
use zombies::scene::{cycle_scene_choice, scene_label, Scene};

#[test]
fn menu_buttons_lead_where_they_say() {
    assert_eq!(button_target(MenuButton::Play), Some(GameState::Playing));
    assert_eq!(button_target(MenuButton::Options), Some(GameState::Options));
    assert_eq!(button_target(MenuButton::Back), Some(GameState::Menu));
    assert_eq!(button_target(MenuButton::CycleScene), None);
}

#[test]
fn keyboard_shortcuts() {
    assert_eq!(menu_key(GameState::Menu, MenuKey::Enter), Some(GameState::Playing));
    assert_eq!(menu_key(GameState::Menu, MenuKey::Space), Some(GameState::Playing));
    assert_eq!(menu_key(GameState::Menu, MenuKey::Options), Some(GameState::Options));
    assert_eq!(menu_key(GameState::Menu, MenuKey::Escape), None);
    assert_eq!(menu_key(GameState::Options, MenuKey::Escape), Some(GameState::Menu));
    assert_eq!(menu_key(GameState::Options, MenuKey::Enter), None);
    assert_eq!(menu_key(GameState::Playing, MenuKey::Escape), None);
    assert_eq!(menu_key(GameState::Menu, MenuKey::Other), None);
}

#[test]
fn any_key_restarts_after_death() {
    assert_eq!(GameState::default(), GameState::Menu);
    assert_eq!(press_any_key(GameState::Menu), Some(GameState::Playing));
    assert_eq!(press_any_key(GameState::GameOver), Some(GameState::Playing));
    assert_eq!(press_any_key(GameState::Playing), None);
    assert_eq!(press_any_key(GameState::Options), None);
    assert_eq!(check_death(GameState::Playing, true), Some(GameState::GameOver));
    assert_eq!(check_death(GameState::Playing, false), None);
    assert_eq!(check_death(GameState::Menu, true), None);
}

#[test]
fn cheats_toggle_independently() {
    let mut c = Cheats::default();
    for k in [Cheat::AllWeapons, Cheat::UnlimitedAmmo, Cheat::SuperStamina, Cheat::SuperArmor] {
        assert!(!c.cheat(k));
    }
    c.toggle_cheat(Cheat::UnlimitedAmmo);
    assert!(c.cheat(Cheat::UnlimitedAmmo));
    assert!(c.unlimited_ammo);
    assert!(!c.cheat(Cheat::AllWeapons));
    assert!(!c.cheat(Cheat::SuperStamina));
    assert!(!c.cheat(Cheat::SuperArmor));
    c.toggle_cheat(Cheat::SuperArmor);
    assert!(c.super_armor);
    c.toggle_cheat(Cheat::UnlimitedAmmo);
    assert!(!c.cheat(Cheat::UnlimitedAmmo));
    assert!(c.cheat(Cheat::SuperArmor));
}

#[test]
fn scenario_choice_cycles_through_every_scene() {
    let mut c = None;
    let mut labels = Vec::new();
    for _ in 0..4 {
        labels.push(scene_label(c));
        c = cycle_scene_choice(c);
    }
    assert_eq!(c, None);
    assert_eq!(
        labels,
        vec![
            "SCENARIO:  Random".to_string(),
            "SCENARIO:  Downtown Streets".to_string(),
            "SCENARIO:  City Park".to_string(),
            "SCENARIO:  The Neighborhood".to_string(),
        ]
    );
}

#[test]
fn scene_names() {
    assert_eq!(Scene::Streets.label(), "Downtown Streets");
    assert_eq!(Scene::Park.label(), "City Park");
    assert_eq!(Scene::Neighborhood.label(), "The Neighborhood");
}

#[test]
fn prop_tables() {
    assert_eq!(prop_spec(PropKind::Bush), (17, false));
    assert_eq!(prop_spec(PropKind::Van), (35, true));
    assert_eq!(prop_spec(PropKind::Hydrant), (7, true));
    assert_eq!(prop_stats(PropKind::Barrel), (28, true, true));
    assert_eq!(prop_stats(PropKind::Hydrant), (400, false, false));
    assert_eq!(prop_stats(PropKind::Car), (130, true, true));
    assert_eq!(prop_target(Scene::Park), 9);
    assert_eq!(prop_target(Scene::Streets), 6);
    let park = prop_kinds(Scene::Park);
    assert_eq!(park.len(), 7);
    assert!(!park.contains(&PropKind::Car));
    assert_eq!(prop_kinds(Scene::Neighborhood).iter().filter(|k| **k == PropKind::Car).count(), 2);
}
