//! Zombie types and the wave director.

use vstd::prelude::*;
use crate::rng::thread_range_usize;

verus! {

#[derive(Clone, Copy, PartialEq, Eq, Structural, Debug)]
pub enum ZKind {
    Walker,
    Runner,
    Crawler,
    Brute,
    Spitter,
}

/// How a zombie closes in on the player.
#[derive(Clone, Copy, PartialEq, Eq, Structural, Debug)]
pub enum Pattern {
    Direct,
    WanderChase,
    Ranged,
}

/// Base stats of a zombie type. Fractional stats are given in hundredths
/// (`knock_resist_pct: 75` is a resistance of 0.75).
#[derive(Clone, Copy, PartialEq, Eq, Structural, Debug)]
pub struct ZDef {
    pub hp: u32,
    pub speed: u32,
    pub r: u32,
    pub dmg: u32,
    pub score: u32,
    pub pattern: Pattern,
    pub knock_resist_pct: u32,
    pub gore_pct: u32,
    pub shamble_pct: u32,
    pub lurch_pct: u32,
}

/// The stat table.
pub open spec fn spec_zdef(k: ZKind) -> ZDef {
    match k {
        ZKind::Walker => ZDef { hp: 46, speed: 52, r: 12, dmg: 9, score: 10, pattern: Pattern::Direct, knock_resist_pct: 0, gore_pct: 100, shamble_pct: 50, lurch_pct: 38 },
        ZKind::Runner => ZDef { hp: 30, speed: 96, r: 11, dmg: 7, score: 16, pattern: Pattern::Direct, knock_resist_pct: 10, gore_pct: 100, shamble_pct: 20, lurch_pct: 15 },
        ZKind::Crawler => ZDef { hp: 22, speed: 74, r: 9, dmg: 6, score: 14, pattern: Pattern::WanderChase, knock_resist_pct: 10, gore_pct: 70, shamble_pct: 42, lurch_pct: 32 },
        ZKind::Brute => ZDef { hp: 180, speed: 40, r: 21, dmg: 22, score: 40, pattern: Pattern::Direct, knock_resist_pct: 75, gore_pct: 200, shamble_pct: 26, lurch_pct: 42 },
        ZKind::Spitter => ZDef { hp: 40, speed: 52, r: 12, dmg: 5, score: 24, pattern: Pattern::Ranged, knock_resist_pct: 20, gore_pct: 100, shamble_pct: 20, lurch_pct: 18 },
    }
}

/// Base stats of a zombie type.
pub fn zdef(k: ZKind) -> (d: ZDef)
    ensures
        d == spec_zdef(k),
{
    match k {
        ZKind::Walker => ZDef { hp: 46, speed: 52, r: 12, dmg: 9, score: 10, pattern: Pattern::Direct, knock_resist_pct: 0, gore_pct: 100, shamble_pct: 50, lurch_pct: 38 },
        ZKind::Runner => ZDef { hp: 30, speed: 96, r: 11, dmg: 7, score: 16, pattern: Pattern::Direct, knock_resist_pct: 10, gore_pct: 100, shamble_pct: 20, lurch_pct: 15 },
        ZKind::Crawler => ZDef { hp: 22, speed: 74, r: 9, dmg: 6, score: 14, pattern: Pattern::WanderChase, knock_resist_pct: 10, gore_pct: 70, shamble_pct: 42, lurch_pct: 32 },
        ZKind::Brute => ZDef { hp: 180, speed: 40, r: 21, dmg: 22, score: 40, pattern: Pattern::Direct, knock_resist_pct: 75, gore_pct: 200, shamble_pct: 26, lurch_pct: 42 },
        ZKind::Spitter => ZDef { hp: 40, speed: 52, r: 12, dmg: 5, score: 24, pattern: Pattern::Ranged, knock_resist_pct: 20, gore_pct: 100, shamble_pct: 20, lurch_pct: 18 },
    }
}

/// Which zombie type a uniform roll (in thousandths, `0..1000`) picks on a
/// given wave. Early waves are walkers and crawlers; runners and spitters
/// join from wave 2; brutes only from wave 4.
pub open spec fn spec_pick_kind(wave: u32, roll: u32) -> ZKind {
    if wave == 1 {
        if roll < 850 { ZKind::Walker } else { ZKind::Crawler }
    } else if 2 <= wave <= 3 {
        if roll < 550 {
            ZKind::Walker
        } else if roll < 780 {
            ZKind::Crawler
        } else if roll < 940 {
            ZKind::Runner
        } else {
            ZKind::Spitter
        }
    } else {
        if roll < 400 {
            ZKind::Walker
        } else if roll < 580 {
            ZKind::Runner
        } else if roll < 720 {
            ZKind::Crawler
        } else if roll < 860 {
            ZKind::Spitter
        } else {
            ZKind::Brute
        }
    }
}

/// Pick the type of the next zombie of `wave` from a uniform roll in
/// thousandths.
pub fn pick_kind(wave: u32, roll: u32) -> (k: ZKind)
    requires
        roll < 1000,
    ensures
        k == spec_pick_kind(wave, roll),
{
    match wave {
        1 => {
            if roll < 850 {
                ZKind::Walker
            } else {
                ZKind::Crawler
            }
        },
        2..=3 => {
            if roll < 550 {
                ZKind::Walker
            } else if roll < 780 {
                ZKind::Crawler
            } else if roll < 940 {
                ZKind::Runner
            } else {
                ZKind::Spitter
            }
        },
        _ => {
            if roll < 400 {
                ZKind::Walker
            } else if roll < 580 {
                ZKind::Runner
            } else if roll < 720 {
                ZKind::Crawler
            } else if roll < 860 {
                ZKind::Spitter
            } else {
                ZKind::Brute
            }
        },
    }
}

/// Pick the type of the next zombie of `wave` with a fresh uniform roll.
pub fn random_kind(wave: u32) -> (k: ZKind)
    ensures
        exists|roll: u32| roll < 1000 && k == spec_pick_kind(wave, roll),
{
    let roll = thread_range_usize(0, 1000);
    let r: u32 = roll as u32;
    let k = pick_kind(wave, r);
    assert(r < 1000 && k == spec_pick_kind(wave, r));
    k
}

/// The first wave only brings walkers and crawlers, and brutes never come
/// before the fourth wave.
pub proof fn lemma_early_waves_mild(wave: u32, roll: u32)
    requires
        1 <= wave,
    ensures
        wave == 1 ==> spec_pick_kind(wave, roll) == ZKind::Walker || spec_pick_kind(wave, roll)
            == ZKind::Crawler,
        wave < 4 ==> spec_pick_kind(wave, roll) != ZKind::Brute,
{
}

/// The first wave is 85% walkers (rolls below 850) and 15% crawlers; the
/// second and third are 55% walkers (below 550), 23% crawlers (550 to 779),
/// 16% runners (780 to 939) and 6% spitters (940 and up).
pub proof fn lemma_early_waves_table(wave: u32, roll: u32)
    requires
        1 <= wave <= 3,
        roll < 1000,
    ensures
        wave == 1 && roll < 850 ==> spec_pick_kind(wave, roll) == ZKind::Walker,
        wave == 1 && 850 <= roll ==> spec_pick_kind(wave, roll) == ZKind::Crawler,
        wave >= 2 && roll < 550 ==> spec_pick_kind(wave, roll) == ZKind::Walker,
        wave >= 2 && 550 <= roll < 780 ==> spec_pick_kind(wave, roll) == ZKind::Crawler,
        wave >= 2 && 780 <= roll < 940 ==> spec_pick_kind(wave, roll) == ZKind::Runner,
        wave >= 2 && 940 <= roll ==> spec_pick_kind(wave, roll) == ZKind::Spitter,
{
}

/// From the fourth wave on the wave number no longer matters: every later
/// wave picks from one table, 40% walkers (rolls below 400), 18% runners
/// (400 to 579), 14% crawlers (580 to 719), 14% spitters (720 to 859) and 14%
/// brutes (860 and up).
pub proof fn lemma_late_waves_table(wave: u32, roll: u32)
    requires
        wave >= 4,
        roll < 1000,
    ensures
        roll < 400 ==> spec_pick_kind(wave, roll) == ZKind::Walker,
        400 <= roll < 580 ==> spec_pick_kind(wave, roll) == ZKind::Runner,
        580 <= roll < 720 ==> spec_pick_kind(wave, roll) == ZKind::Crawler,
        720 <= roll < 860 ==> spec_pick_kind(wave, roll) == ZKind::Spitter,
        860 <= roll ==> spec_pick_kind(wave, roll) == ZKind::Brute,
{
}

/// Any two waves from the fourth on pick the same type for the same roll.
pub proof fn lemma_late_waves_alike(w1: u32, w2: u32, roll: u32)
    requires
        w1 >= 4,
        w2 >= 4,
    ensures
        spec_pick_kind(w1, roll) == spec_pick_kind(w2, roll),
{
}

/// Most zombies the director keeps alive at once.
pub const MAX_ALIVE: u32 = 42;

/// Zombies a wave brings: 6 plus 3 per wave number.
pub open spec fn wave_quota(wave: int) -> int {
    6 + 3 * wave
}

/// Highest wave number whose quota fits in a `u32`.
pub open spec fn wave_ok(wave: int) -> bool {
    wave < 1431655760
}

/// Wave director: the current wave, how many of its zombies are still to
/// come, and whether a wave is running (otherwise the intermission runs).
/// The timers that pace it live with the caller.
#[derive(Clone, Copy, PartialEq, Eq, Structural, Debug)]
pub struct WaveState {
    pub wave: u32,
    pub to_spawn: u32,
    pub active: bool,
}

/// What the director asks its caller to do this frame.
#[derive(Clone, Copy, PartialEq, Eq, Structural, Debug)]
pub enum WaveAction {
    /// Nothing to do.
    Idle,
    /// A new wave began (reset the spawn timer; the wave number changed).
    WaveStarted,
    /// Try to spawn one zombie (reset the spawn timer); report success with
    /// `spawned`.
    TrySpawn,
    /// The wave is cleared (start the intermission).
    WaveCleared,
}

/// The director's state and action after one frame.
pub open spec fn spec_tick(s: WaveState, intermission_over: bool, spawn_due: bool, alive: u32) -> (WaveState, WaveAction) {
    if !s.active {
        if intermission_over {
            let w = (s.wave + 1) as u32;
            (WaveState { wave: w, to_spawn: wave_quota(w as int) as u32, active: true }, WaveAction::WaveStarted)
        } else {
            (s, WaveAction::Idle)
        }
    } else if s.to_spawn > 0 {
        if spawn_due && alive < MAX_ALIVE {
            (s, WaveAction::TrySpawn)
        } else {
            (s, WaveAction::Idle)
        }
    } else if alive == 0 {
        (WaveState { active: false, ..s }, WaveAction::WaveCleared)
    } else {
        (s, WaveAction::Idle)
    }
}

/// The director's state after one of the wave's zombies was spawned.
pub open spec fn spec_spawned(s: WaveState) -> WaveState {
    WaveState { to_spawn: (s.to_spawn - 1) as u32, ..s }
}

impl WaveState {
    /// Consistency: between waves nothing is left to spawn, and a wave never
    /// has more left than its quota.
    pub open spec fn wf(self) -> bool {
        &&& !self.active ==> self.to_spawn == 0
        &&& self.to_spawn <= wave_quota(self.wave as int)
    }

    /// Advance the director by a frame. `intermission_over` says the
    /// intermission timer ran out, `spawn_due` that the spawn timer did, and
    /// `alive` counts the zombies on the map.
    pub fn tick(&mut self, intermission_over: bool, spawn_due: bool, alive: u32) -> (act: WaveAction)
        requires
            old(self).wf(),
            wave_ok(old(self).wave as int),
        ensures
            final(self).wf(),
            (*final(self), act) == spec_tick(*old(self), intermission_over, spawn_due, alive),
            old(self).active && old(self).to_spawn > 0 && spawn_due && alive < MAX_ALIVE ==> act
                == WaveAction::TrySpawn && *final(self) == *old(self),
    {
        if !self.active {
            if intermission_over {
                self.wave = self.wave + 1;
                self.to_spawn = 6 + self.wave * 3;
                self.active = true;
                return WaveAction::WaveStarted;
            }
            return WaveAction::Idle;
        }
        if self.to_spawn > 0 {
            if spawn_due && alive < MAX_ALIVE {
                WaveAction::TrySpawn
            } else {
                WaveAction::Idle
            }
        } else if alive == 0 {
            self.active = false;
            WaveAction::WaveCleared
        } else {
            WaveAction::Idle
        }
    }

    /// One of the wave's zombies was spawned.
    pub fn spawned(&mut self)
        requires
            old(self).wf(),
            old(self).active,
            old(self).to_spawn > 0,
        ensures
            final(self).wf(),
            *final(self) == spec_spawned(*old(self)),
    {
        self.to_spawn = self.to_spawn - 1;
    }

    /// The wave banner shown on the HUD.
    pub fn phase(&self) -> (p: WavePhase)
        ensures
            p == spec_phase(*self),
    {
        if self.active {
            WavePhase::Wave(if self.wave > 1 { self.wave } else { 1 })
        } else if self.wave == 0 {
            WavePhase::GetReady
        } else {
            WavePhase::Cleared
        }
    }
}

impl Default for WaveState {
    fn default() -> (s: Self)
        ensures
            s == (WaveState { wave: 0, to_spawn: 0, active: false }),
    {
        WaveState { wave: 0, to_spawn: 0, active: false }
    }
}

/// What the HUD's wave banner says.
#[derive(Clone, Copy, PartialEq, Eq, Structural, Debug)]
pub enum WavePhase {
    /// "Wave n" while a wave runs.
    Wave(u32),
    /// "Get ready…" before the first wave.
    GetReady,
    /// "Wave cleared!" between waves.
    Cleared,
}

pub open spec fn spec_phase(s: WaveState) -> WavePhase {
    if s.active {
        WavePhase::Wave(if s.wave > 1 { s.wave } else { 1 })
    } else if s.wave == 0 {
        WavePhase::GetReady
    } else {
        WavePhase::Cleared
    }
}

/// The director's state after `n` zombies were spawned.
pub open spec fn after_spawns(s: WaveState, n: nat) -> WaveState
    decreases n,
{
    if n == 0 {
        s
    } else {
        spec_spawned(after_spawns(s, (n - 1) as nat))
    }
}

/// Each wave brings exactly its quota: right after a wave starts, `n` spawns
/// (n up to the quota) leave quota - n to come, and the wave can only be
/// cleared once all of the quota has spawned.
pub proof fn lemma_wave_quota(s: WaveState, alive: u32, n: nat)
    requires
        s.wf(),
        !s.active,
        wave_ok(s.wave as int),
        n <= wave_quota(s.wave + 1),
    ensures
        ({
            let started = spec_tick(s, true, false, alive).0;
            let later = after_spawns(started, n);
            &&& started.active
            &&& started.wave == s.wave + 1
            &&& later.active
            &&& later.wave == started.wave
            &&& later.to_spawn == wave_quota(started.wave as int) - n
            &&& forall|due: bool, a: u32| #[trigger] spec_tick(later, false, due, a).1 == WaveAction::WaveCleared
                ==> n == wave_quota(started.wave as int) && a == 0
        }),
    decreases n,
{
    if n > 0 {
        lemma_wave_quota(s, alive, (n - 1) as nat);
    }
}

/// While a wave runs with zombies left to come, a due spawn timer and fewer
/// than `MAX_ALIVE` zombies on the map always bring a spawn request, whatever
/// the wave number, and the request leaves the director as it was until the
/// spawn is reported.
pub proof fn lemma_spawn_when_room(s: WaveState, intermission_over: bool, alive: u32)
    requires
        s.active,
        s.to_spawn > 0,
        alive < MAX_ALIVE,
    ensures
        spec_tick(s, intermission_over, true, alive) == (s, WaveAction::TrySpawn),
{
}

/// What one frame of the director does in each state: between waves it waits
/// for the intermission and then starts the next wave with its quota; during
/// a wave it waits (changing nothing) when no spawn is due or the map is
/// full; once the whole quota has spawned it declares the wave cleared
/// exactly when no zombie is left alive.
pub proof fn lemma_director_frame(s: WaveState, intermission_over: bool, spawn_due: bool, alive: u32)
    requires
        s.wf(),
        wave_ok(s.wave as int),
    ensures
        ({
            let (t, act) = spec_tick(s, intermission_over, spawn_due, alive);
            &&& !s.active && !intermission_over ==> t == s && act == WaveAction::Idle
            &&& !s.active && intermission_over ==> act == WaveAction::WaveStarted && t.active && t.wave == s.wave + 1
                && t.to_spawn == 6 + 3 * t.wave
            &&& s.active && s.to_spawn > 0 && !(spawn_due && alive < MAX_ALIVE) ==> t == s && act == WaveAction::Idle
            &&& s.active && s.to_spawn == 0 ==> (act == WaveAction::WaveCleared <==> alive == 0)
            &&& s.active && s.to_spawn == 0 && alive == 0 ==> !t.active && t.wave == s.wave
            &&& s.active && s.to_spawn == 0 && alive > 0 ==> t == s && act == WaveAction::Idle
        }),
{
}

/// Every zombie of every wave's quota can be spawned from an empty map: after
/// a wave starts and any number of its spawns short of the quota, a due timer
/// with no zombie alive asks for another spawn.
pub proof fn lemma_quota_spawnable(s: WaveState, alive: u32, n: nat)
    requires
        s.wf(),
        !s.active,
        wave_ok(s.wave as int),
        n < wave_quota(s.wave + 1),
    ensures
        ({
            let later = after_spawns(spec_tick(s, true, false, alive).0, n);
            spec_tick(later, false, true, 0).1 == WaveAction::TrySpawn
        }),
{
    lemma_wave_quota(s, alive, n);
}

/// Waves escalate: each wave that starts brings three more zombies than the
/// one before it.
pub proof fn lemma_waves_escalate(s: WaveState, alive: u32)
    requires
        s.wf(),
        !s.active,
        wave_ok(s.wave as int),
    ensures
        spec_tick(s, true, false, alive).0.to_spawn == wave_quota(s.wave as int) + 3,
        spec_tick(s, true, false, alive).1 == WaveAction::WaveStarted,
{
}

/// A running tally the HUD reads.
#[derive(Clone, Copy, PartialEq, Eq, Structural, Debug)]
pub struct Score {
    pub kills: u32,
    pub points: u32,
    pub wave: u32,
}

impl Score {
    /// Credit one kill worth `points`.
    pub fn record_kill(&mut self, points: u32)
        requires
            old(self).kills < u32::MAX,
            old(self).points + points <= u32::MAX,
        ensures
            final(self).kills == old(self).kills + 1,
            final(self).points == old(self).points + points,
            final(self).wave == old(self).wave,
    {
        self.kills = self.kills + 1;
        self.points = self.points + points;
    }
}

impl Default for Score {
    fn default() -> (s: Self)
        ensures
            s == (Score { kills: 0, points: 0, wave: 0 }),
    {
        Score { kills: 0, points: 0, wave: 0 }
    }
}

} // verus!
