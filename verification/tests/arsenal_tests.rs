use zombies::arsenal::{Ammo, Loadout, WeaponKind, WeaponSpec};

fn w(kind: WeaponKind, clip: i32, ammo: Ammo) -> WeaponSpec {
    WeaponSpec { kind, clip, ammo }
}

fn table() -> Vec<WeaponSpec> {
    vec![
        w(WeaponKind::Melee, 0, Ammo::Nil),
        w(WeaponKind::Melee, 0, Ammo::Nil),
        w(WeaponKind::Pistol, 12, Ammo::Rounds),
        w(WeaponKind::Smg, 30, Ammo::Rounds),
        w(WeaponKind::Shotgun, 6, Ammo::Shells),
        w(WeaponKind::Rifle, 30, Ammo::Rounds),
        w(WeaponKind::Launcher, 1, Ammo::Rockets),
        w(WeaponKind::Flamethrower, 100, Ammo::Fuel),
        w(WeaponKind::Sxs, 2, Ammo::Shells),
    ]
}

#[test]
fn starting_loadout() {
    let l = Loadout::new(table());
    assert_eq!(l.current(), 2);
    assert_eq!(l.weapon().kind, WeaponKind::Pistol);
    assert_eq!(l.weapon_count(), 9);
    for (i, spec) in table().iter().enumerate() {
        assert_eq!(l.clip_of(i), spec.clip);
    }
    assert_eq!(l.ammo_for(Ammo::Rounds), 96);
    assert_eq!(l.ammo_for(Ammo::Shells), 24);
    assert_eq!(l.ammo_for(Ammo::Rockets), 3);
    assert_eq!(l.ammo_for(Ammo::Fuel), 200);
    assert_eq!(l.ammo_for(Ammo::Nil), 999);
    assert_eq!(l.grenades(), 4);
}

#[test]
fn pistol_fires_one_round_per_shot() {
    let mut l = Loadout::new(table());
    assert!(l.can_fire(false, false));
    assert!(!l.can_fire(true, false));
    assert!(!l.can_fire(false, true));
    assert_eq!(l.spend_shot(), 1);
    assert_eq!(l.in_clip(), 11);
    assert_eq!(l.ammo_for(Ammo::Rounds), 96);
}

#[test]
fn reload_moves_rounds_without_losing_any() {
    let mut l = Loadout::new(table());
    // Full magazine: nothing to reload.
    assert!(!l.start_reload(false));
    for _ in 0..5 {
        l.spend_shot();
    }
    assert_eq!(l.in_clip(), 7);
    assert!(l.start_reload(false));
    assert!(!l.start_reload(true));
    l.finish_reload();
    assert_eq!(l.in_clip(), 12);
    assert_eq!(l.ammo_for(Ammo::Rounds), 91);
    assert_eq!(l.in_clip() + l.ammo_for(Ammo::Rounds), 103);
}

#[test]
fn reload_with_short_reserve_takes_what_is_left() {
    let mut l = Loadout::new(table());
    l.select_slot(6); // launcher: 1 rocket loaded, 3 in reserve
    for _ in 0..3 {
        assert!(l.can_fire(false, false));
        assert_eq!(l.spend_shot(), 1);
        assert!(l.auto_reload(false));
        l.finish_reload();
    }
    assert_eq!(l.in_clip(), 1);
    assert_eq!(l.ammo_for(Ammo::Rockets), 0);
    assert_eq!(l.spend_shot(), 1);
    assert_eq!(l.in_clip(), 0);
    assert!(!l.can_fire(false, false));
    // No reserve: no reload, not even an automatic one.
    assert!(!l.start_reload(false));
    assert!(!l.auto_reload(false));
}

#[test]
fn side_by_side_dumps_both_barrels() {
    let mut l = Loadout::new(table());
    l.select_slot(8);
    assert_eq!(l.in_clip(), 2);
    assert_eq!(l.spend_shot(), 2);
    assert_eq!(l.in_clip(), 0);
    assert!(l.auto_reload(false));
    l.finish_reload();
    assert_eq!(l.in_clip(), 2);
    assert_eq!(l.ammo_for(Ammo::Shells), 22);
}

#[test]
fn flamethrower_burns_a_unit_of_fuel() {
    let mut l = Loadout::new(table());
    l.select_slot(7);
    assert_eq!(l.spend_shot(), 1);
    assert_eq!(l.in_clip(), 99);
    assert_eq!(l.ammo_for(Ammo::Fuel), 200);
}

#[test]
fn melee_spends_nothing_and_never_reloads() {
    let mut l = Loadout::new(table());
    l.select_slot(0);
    assert_eq!(l.weapon().kind, WeaponKind::Melee);
    assert!(l.can_fire(false, false));
    assert_eq!(l.spend_shot(), 0);
    assert_eq!(l.in_clip(), 0);
    assert!(!l.start_reload(false));
    assert!(!l.auto_reload(false));
}

#[test]
fn auto_reload_only_when_empty() {
    let mut l = Loadout::new(table());
    l.spend_shot();
    assert!(l.start_reload(false));
    assert!(!l.auto_reload(false));
}

#[test]
fn weapon_cycling_wraps_and_undoes() {
    let mut l = Loadout::new(table());
    l.select_slot(8);
    l.next_weapon();
    assert_eq!(l.current(), 0);
    l.prev_weapon();
    assert_eq!(l.current(), 8);
    l.prev_weapon();
    assert_eq!(l.current(), 7);
    l.next_weapon();
    assert_eq!(l.current(), 8);
    l.select_slot(0);
    l.prev_weapon();
    assert_eq!(l.current(), 8);
    // A slot past the catalogue is ignored.
    l.select_slot(42);
    assert_eq!(l.current(), 8);
    for start in 0..9 {
        l.select_slot(start);
        l.next_weapon();
        l.prev_weapon();
        assert_eq!(l.current(), start);
    }
}

#[test]
fn grenades_run_out() {
    let mut l = Loadout::new(table());
    for _ in 0..4 {
        assert!(l.throw_grenade());
    }
    assert_eq!(l.grenades(), 0);
    assert!(!l.throw_grenade());
    assert_eq!(l.grenades(), 0);
}

#[test]
fn all_weapons_cheat_tops_up_magazines() {
    let mut l = Loadout::new(table());
    l.spend_shot();
    l.select_slot(4);
    l.spend_shot();
    assert!(l.apply_cheats(true, false, true));
    assert_eq!(l.clip_of(2), 12);
    assert_eq!(l.clip_of(4), 6);
    assert_eq!(l.ammo_for(Ammo::Rounds), 96);
    assert_eq!(l.ammo_for(Ammo::Shells), 24);
}

#[test]
fn unlimited_ammo_cheat_pins_reserves_and_cancels_reload() {
    let mut l = Loadout::new(table());
    l.select_slot(7);
    l.spend_shot();
    l.select_slot(2);
    l.spend_shot();
    assert!(!l.apply_cheats(false, true, true));
    assert_eq!(l.in_clip(), 12);
    assert_eq!(l.clip_of(7), 100);
    assert_eq!(l.ammo_for(Ammo::Rounds), 999);
    assert_eq!(l.ammo_for(Ammo::Shells), 999);
    assert_eq!(l.ammo_for(Ammo::Rockets), 999);
    assert_eq!(l.ammo_for(Ammo::Fuel), 200);
    assert!(!l.start_reload(false));
}

#[test]
fn cheats_off_change_nothing() {
    let mut l = Loadout::new(table());
    l.spend_shot();
    assert!(l.apply_cheats(false, false, true));
    assert!(!l.apply_cheats(false, false, false));
    assert_eq!(l.in_clip(), 11);
    assert_eq!(l.ammo_for(Ammo::Rounds), 96);
}
