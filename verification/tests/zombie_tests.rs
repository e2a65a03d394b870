use zombies::limbs::{apply_sever, limb_config, limb_config_from, pick_sever, sever_choices, LimbConfig, LimbDraws};
use zombies::waves::{
    pick_kind, random_kind, zdef, Pattern, Score, WaveAction, WavePhase, WaveState, ZKind, MAX_ALIVE,
};

#[test]
fn zombie_stat_table() {
    let w = zdef(ZKind::Walker);
    assert_eq!((w.hp, w.speed, w.r, w.dmg, w.score), (46, 52, 12, 9, 10));
    assert_eq!(w.pattern, Pattern::Direct);
    let b = zdef(ZKind::Brute);
    assert_eq!((b.hp, b.speed, b.r, b.dmg, b.score, b.knock_resist_pct, b.gore_pct), (180, 40, 21, 22, 40, 75, 200));
    assert_eq!(zdef(ZKind::Crawler).pattern, Pattern::WanderChase);
    assert_eq!(zdef(ZKind::Spitter).pattern, Pattern::Ranged);
    assert_eq!(zdef(ZKind::Runner).speed, 96);
}

#[test]
fn pick_kind_thresholds() {
    assert_eq!(pick_kind(1, 0), ZKind::Walker);
    assert_eq!(pick_kind(1, 849), ZKind::Walker);
    assert_eq!(pick_kind(1, 850), ZKind::Crawler);
    assert_eq!(pick_kind(2, 549), ZKind::Walker);
    assert_eq!(pick_kind(3, 550), ZKind::Crawler);
    assert_eq!(pick_kind(3, 780), ZKind::Runner);
    assert_eq!(pick_kind(2, 940), ZKind::Spitter);
    assert_eq!(pick_kind(4, 399), ZKind::Walker);
    assert_eq!(pick_kind(4, 400), ZKind::Runner);
    assert_eq!(pick_kind(5, 580), ZKind::Crawler);
    assert_eq!(pick_kind(6, 720), ZKind::Spitter);
    assert_eq!(pick_kind(9, 860), ZKind::Brute);
    assert_eq!(pick_kind(9, 999), ZKind::Brute);
}

#[test]
fn early_waves_are_mild() {
    for roll in 0..1000 {
        assert!(matches!(pick_kind(1, roll), ZKind::Walker | ZKind::Crawler));
        assert!(pick_kind(2, roll) != ZKind::Brute);
        assert!(pick_kind(3, roll) != ZKind::Brute);
    }
    for _ in 0..200 {
        assert!(matches!(random_kind(1), ZKind::Walker | ZKind::Crawler));
        assert!(random_kind(3) != ZKind::Brute);
    }
}

#[test]
fn random_kind_reaches_several_kinds() {
    let mut seen_walker = false;
    let mut seen_other = false;
    for _ in 0..400 {
        match random_kind(6) {
            ZKind::Walker => seen_walker = true,
            _ => seen_other = true,
        }
    }
    assert!(seen_walker && seen_other);
}

#[test]
fn a_wave_brings_its_quota() {
    let mut s = WaveState::default();
    assert_eq!(s.phase(), WavePhase::GetReady);
    assert_eq!(s.tick(false, true, 0), WaveAction::Idle);
    assert_eq!(s.tick(true, false, 0), WaveAction::WaveStarted);
    assert_eq!((s.wave, s.to_spawn, s.active), (1, 9, true));
    assert_eq!(s.phase(), WavePhase::Wave(1));
    let mut spawned = 0;
    while s.to_spawn > 0 {
        assert_eq!(s.tick(false, false, 0), WaveAction::Idle);
        assert_eq!(s.tick(false, true, MAX_ALIVE), WaveAction::Idle);
        assert_eq!(s.tick(false, true, 3), WaveAction::TrySpawn);
        s.spawned();
        spawned += 1;
    }
    assert_eq!(spawned, 9);
    // Not cleared while zombies remain.
    assert_eq!(s.tick(false, true, 1), WaveAction::Idle);
    assert_eq!(s.tick(false, false, 0), WaveAction::WaveCleared);
    assert!(!s.active);
    assert_eq!(s.phase(), WavePhase::Cleared);
    assert_eq!(s.tick(true, false, 0), WaveAction::WaveStarted);
    assert_eq!((s.wave, s.to_spawn), (2, 12));
}

#[test]
fn score_counts_kills() {
    let mut s = Score::default();
    s.record_kill(10);
    s.record_kill(40);
    assert_eq!((s.kills, s.points, s.wave), (2, 50, 0));
}

#[test]
fn sever_choices_skip_gone_limbs() {
    assert_eq!(sever_choices(0, -1, -1), vec![0, 1, 2, 3]);
    assert_eq!(sever_choices(0b0101, -1, -1), vec![1, 3]);
    assert_eq!(sever_choices(0, 1, 0), vec![0, 3]);
    assert_eq!(sever_choices(0b0001, 1, 0), vec![3]);
    assert_eq!(sever_choices(0b1111, -1, -1), Vec::<i8>::new());
    assert_eq!(sever_choices(0b1000, 0, 0), vec![1]);
}

#[test]
fn pick_sever_picks_an_open_limb() {
    assert_eq!(pick_sever(0b1111, -1, -1), None);
    assert_eq!(pick_sever(0b0111, -1, 1), None);
    assert_eq!(pick_sever(0b0111, -1, 0), Some(3));
    for _ in 0..100 {
        let l = pick_sever(0b0010, 0, -1).unwrap();
        assert!(l == 2 || l == 3);
    }
}

#[test]
fn severing_sticks() {
    assert_eq!(apply_sever(0, -1), (0, false));
    assert_eq!(apply_sever(0, 2), (0b0100, true));
    assert_eq!(apply_sever(0b0100, 2), (0b0100, false));
    assert_eq!(apply_sever(0b0100, 0), (0b0101, true));
    let (m, _) = apply_sever(0b0110, 3);
    assert_eq!(m, 0b1110);
    assert_eq!(sever_choices(m, -1, -1), vec![0]);
}

#[test]
fn limb_configs_are_consistent() {
    let kinds = [ZKind::Walker, ZKind::Runner, ZKind::Crawler, ZKind::Brute, ZKind::Spitter];
    for k in kinds {
        for _ in 0..300 {
            let c = limb_config(k);
            if k == ZKind::Crawler {
                assert!(c.crawler);
            }
            if k == ZKind::Brute {
                assert!(!c.crawler);
            }
            assert!((-1..=1).contains(&c.missing_arm));
            assert!((-1..=1).contains(&c.missing_leg));
            assert!((-1..=1).contains(&c.drag_leg));
            if c.drag_leg >= 0 {
                assert!(!c.crawler && c.missing_leg < 0);
            }
        }
    }
}

#[test]
fn crawlers_lose_either_leg() {
    let mut left = false;
    let mut right = false;
    let mut whole = false;
    for _ in 0..400 {
        match limb_config(ZKind::Crawler).missing_leg {
            0 => left = true,
            1 => right = true,
            _ => whole = true,
        }
    }
    assert!(left && right && whole);
}

fn draws(crawls: bool, crawler_leg_lost: bool, leg_lost: bool, arm_lost: bool, drags: bool) -> LimbDraws {
    LimbDraws { crawls, crawler_leg_lost, leg_lost, leg_side: 1, arm_lost, arm_side: 0, drags, drag_side: 1 }
}

#[test]
fn limb_config_follows_the_draws() {
    let none = draws(false, false, false, false, false);
    assert_eq!(
        limb_config_from(ZKind::Walker, none),
        LimbConfig { crawler: false, missing_arm: -1, missing_leg: -1, drag_leg: -1 }
    );
    // Crawlers always crawl, brutes never do.
    assert!(limb_config_from(ZKind::Crawler, none).crawler);
    assert!(!limb_config_from(ZKind::Brute, draws(true, false, false, false, false)).crawler);
    assert!(limb_config_from(ZKind::Runner, draws(true, false, false, false, false)).crawler);
    // The 60% leg loss applies to crawlers only; the 8% one to anyone.
    assert_eq!(limb_config_from(ZKind::Walker, draws(false, true, false, false, false)).missing_leg, -1);
    assert_eq!(limb_config_from(ZKind::Crawler, draws(false, true, false, false, false)).missing_leg, 1);
    assert_eq!(limb_config_from(ZKind::Walker, draws(false, false, true, false, false)).missing_leg, 1);
    assert_eq!(limb_config_from(ZKind::Spitter, draws(false, false, false, true, false)).missing_arm, 0);
    // Only an intact walker drags a leg.
    assert_eq!(limb_config_from(ZKind::Walker, draws(false, false, false, false, true)).drag_leg, 1);
    assert_eq!(limb_config_from(ZKind::Walker, draws(false, false, true, false, true)).drag_leg, -1);
    assert_eq!(limb_config_from(ZKind::Crawler, draws(false, false, false, false, true)).drag_leg, -1);
}
