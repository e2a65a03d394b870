//! The player's weapons and ammunition: which weapon is in hand, how many
//! rounds each magazine holds, the reserves per ammunition type, grenades,
//! reloading and the ammunition each shot spends. Timers (cooldown, reload
//! time) are continuous and kept by the caller, which passes their state in
//! as flags.

use vstd::prelude::*;

verus! {

/// The ammunition a weapon draws on.
#[derive(Clone, Copy, PartialEq, Eq, Structural, Debug)]
pub enum Ammo {
    Rounds,
    Shells,
    Rockets,
    Fuel,
    /// Melee weapons need none.
    Nil,
}

/// How a weapon behaves when fired.
#[derive(Clone, Copy, PartialEq, Eq, Structural, Debug)]
pub enum WeaponKind {
    Melee,
    Flamethrower,
    Pistol,
    Smg,
    Shotgun,
    /// Side-by-side shotgun: one pull fires every chambered shell.
    Sxs,
    Magnum,
    Rifle,
    Launcher,
}

/// The part of a weapon's description that the ammunition rules read: its
/// kind, its magazine size and the ammunition it loads.
#[derive(Clone, Copy, PartialEq, Eq, Structural, Debug)]
pub struct WeaponSpec {
    pub kind: WeaponKind,
    pub clip: i32,
    pub ammo: Ammo,
}

/// What a loadout holds, as plain values.
pub struct LoadoutView {
    pub weapons: Seq<WeaponSpec>,
    pub current: int,
    pub clip: Seq<i32>,
    pub rounds: i32,
    pub shells: i32,
    pub rockets: i32,
    pub fuel: i32,
    pub grenades: i32,
}

/// The weapon catalogue the player carries (every weapon, one magazine each),
/// the weapon in hand, and the shared reserves.
pub struct Loadout {
    weapons: Vec<WeaponSpec>,
    current: usize,
    clip: Vec<i32>,
    rounds: i32,
    shells: i32,
    rockets: i32,
    fuel: i32,
    grenades: i32,
}

impl View for Loadout {
    type V = LoadoutView;

    closed spec fn view(&self) -> LoadoutView {
        LoadoutView {
            weapons: self.weapons@,
            current: self.current as int,
            clip: self.clip@,
            rounds: self.rounds,
            shells: self.shells,
            rockets: self.rockets,
            fuel: self.fuel,
            grenades: self.grenades,
        }
    }
}

/// The weapon in hand.
pub open spec fn held(v: LoadoutView) -> WeaponSpec {
    v.weapons[v.current]
}

/// Rounds in the magazine of the weapon in hand.
pub open spec fn loaded(v: LoadoutView) -> int {
    v.clip[v.current] as int
}

/// The reserve of ammunition `a`; melee weapons count as having plenty (999).
pub open spec fn ammo_of(v: LoadoutView, a: Ammo) -> int {
    match a {
        Ammo::Rounds => v.rounds as int,
        Ammo::Shells => v.shells as int,
        Ammo::Rockets => v.rockets as int,
        Ammo::Fuel => v.fuel as int,
        Ammo::Nil => 999,
    }
}

/// The view with the reserve of `a` set to `n` (no change for `Ammo::Nil`).
pub open spec fn with_ammo(v: LoadoutView, a: Ammo, n: i32) -> LoadoutView {
    match a {
        Ammo::Rounds => LoadoutView { rounds: n, ..v },
        Ammo::Shells => LoadoutView { shells: n, ..v },
        Ammo::Rockets => LoadoutView { rockets: n, ..v },
        Ammo::Fuel => LoadoutView { fuel: n, ..v },
        Ammo::Nil => v,
    }
}

/// The view with the magazine of slot `i` holding `n`.
pub open spec fn with_clip(v: LoadoutView, i: int, n: int) -> LoadoutView {
    LoadoutView { clip: v.clip.update(i, n as i32), ..v }
}

/// A consistent loadout: one magazine per weapon, a valid slot in hand, every
/// magazine between empty and full, and no reserve below zero.
pub open spec fn loadout_ok(v: LoadoutView) -> bool {
    &&& v.weapons.len() == v.clip.len()
    &&& 0 <= v.current < v.weapons.len()
    &&& forall|i: int| 0 <= i < v.clip.len() ==> 0 <= #[trigger] v.clip[i] <= v.weapons[i].clip
    &&& v.rounds >= 0
    &&& v.shells >= 0
    &&& v.rockets >= 0
    &&& v.fuel >= 0
    &&& v.grenades >= 0
}

/// A reload may start: a firearm, not already reloading, a magazine that is
/// not full, and reserve ammunition to load.
pub open spec fn reload_allowed(v: LoadoutView, reloading: bool) -> bool {
    &&& held(v).kind != WeaponKind::Melee
    &&& !reloading
    &&& loaded(v) < held(v).clip
    &&& ammo_of(v, held(v).ammo) > 0
}

/// The loadout after a reload completes: the magazine takes what it lacks, or
/// what the reserve still has if that is less, out of the reserve.
pub open spec fn after_reload(v: LoadoutView) -> LoadoutView {
    let w = held(v);
    let need = w.clip - loaded(v);
    let have = ammo_of(v, w.ammo);
    let take = if need < have { need } else { have };
    with_ammo(with_clip(v, v.current, loaded(v) + take), w.ammo, (have - take) as i32)
}

/// The weapon in hand can fire: no cooldown or reload running, and either a
/// melee weapon or a round in the magazine.
pub open spec fn fire_allowed(v: LoadoutView, cooling: bool, reloading: bool) -> bool {
    &&& !cooling
    &&& !reloading
    &&& (held(v).kind == WeaponKind::Melee || loaded(v) > 0)
}

/// Rounds one pull of the trigger spends: none for melee, the whole magazine
/// for the side-by-side, one otherwise.
pub open spec fn shot_cost(v: LoadoutView) -> int {
    match held(v).kind {
        WeaponKind::Melee => 0,
        WeaponKind::Sxs => loaded(v),
        _ => 1,
    }
}

/// One pull of the trigger: a melee weapon spends nothing and leaves the
/// loadout as it was; the side-by-side fires every chambered shell and is left
/// empty; every other firearm fires exactly one round, leaving one round fewer
/// in its magazine and every other magazine and reserve as it was.
pub proof fn lemma_trigger_pull(v: LoadoutView)
    requires
        loadout_ok(v),
        held(v).kind == WeaponKind::Melee || loaded(v) > 0,
    ensures
        ({
            let after = with_clip(v, v.current, loaded(v) - shot_cost(v));
            &&& held(v).kind == WeaponKind::Melee ==> shot_cost(v) == 0 && after == v
            &&& held(v).kind == WeaponKind::Sxs ==> shot_cost(v) == loaded(v) && loaded(after) == 0
            &&& held(v).kind != WeaponKind::Melee && held(v).kind != WeaponKind::Sxs ==> shot_cost(v) == 1
                && loaded(after) == loaded(v) - 1
            &&& forall|i: int| 0 <= i < v.clip.len() && i != v.current ==> #[trigger] after.clip[i] == v.clip[i]
            &&& after.rounds == v.rounds && after.shells == v.shells && after.rockets == v.rockets
                && after.fuel == v.fuel && after.grenades == v.grenades
        }),
{
    let after = with_clip(v, v.current, loaded(v) - shot_cost(v));
    if held(v).kind == WeaponKind::Melee {
        assert(after.clip =~= v.clip);
    }
}

/// Slot after "next weapon" among `n` slots (wrapping round).
pub open spec fn next_slot(c: int, n: int) -> int {
    if c + 1 < n { c + 1 } else { 0 }
}

/// Slot after "previous weapon" among `n` slots (wrapping round).
pub open spec fn prev_slot(c: int, n: int) -> int {
    if c == 0 { n - 1 } else { c - 1 }
}

/// Magazine of slot `i` after the cheats: "all weapons" and "unlimited ammo"
/// both keep every magazine of a firearm full.
pub open spec fn cheat_clip(v: LoadoutView, i: int, all_weapons: bool, unlimited_ammo: bool) -> int {
    if v.weapons[i].clip > 0 && (all_weapons || unlimited_ammo) {
        v.weapons[i].clip as int
    } else {
        v.clip[i] as int
    }
}

/// Stepping to the next weapon and back (or back and then forward) returns
/// to the weapon that was in hand.
pub proof fn lemma_next_prev_inverse(c: int, n: int)
    requires
        0 <= c < n,
    ensures
        prev_slot(next_slot(c, n), n) == c,
        next_slot(prev_slot(c, n), n) == c,
        0 <= next_slot(c, n) < n,
        0 <= prev_slot(c, n) < n,
{
}

/// A firearm whose magazine runs dry while reserve ammunition is left
/// starts reloading by itself (and may be reloaded by hand).
pub proof fn lemma_dry_firearm_reloads(v: LoadoutView)
    requires
        loadout_ok(v),
        held(v).kind != WeaponKind::Melee,
        held(v).clip > 0,
        loaded(v) == 0,
        ammo_of(v, held(v).ammo) > 0,
    ensures
        reload_allowed(v, false) && loaded(v) <= 0,
{
}

/// A reload never leaves the magazine short while the reserve could fill it,
/// and a full magazine needs no reload.
pub proof fn lemma_reload_fills(v: LoadoutView)
    requires
        loadout_ok(v),
        held(v).ammo != Ammo::Nil,
    ensures
        ammo_of(v, held(v).ammo) >= held(v).clip - loaded(v) ==> loaded(after_reload(v)) == held(v).clip,
        loaded(v) == held(v).clip ==> !reload_allowed(v, false),
{
}

/// With unlimited ammunition on, every firearm's magazine is full, so no
/// reload is ever needed.
pub proof fn lemma_unlimited_ammo_never_reloads(v: LoadoutView, w: LoadoutView, all_weapons: bool)
    requires
        loadout_ok(v),
        w.weapons == v.weapons,
        w.current == v.current,
        w.clip.len() == v.clip.len(),
        forall|i: int| 0 <= i < v.clip.len() ==> #[trigger] w.clip[i] == cheat_clip(v, i, all_weapons, true),
        w.rounds == 999,
        w.shells == 999,
        w.rockets == 999,
        w.fuel == v.fuel,
    ensures
        forall|r: bool| !#[trigger] reload_allowed(w, r),
{
    assert(w.clip[w.current] == cheat_clip(v, v.current, all_weapons, true));
}

impl Loadout {
    pub open spec fn wf(&self) -> bool {
        loadout_ok(self@)
    }

    /// The starting loadout: every magazine full, the weapon in slot 2 (the
    /// pistol) in hand, 96 rounds, 24 shells, 3 rockets, 200 fuel and 4
    /// grenades in reserve.
    pub fn new(weapons: Vec<WeaponSpec>) -> (l: Loadout)
        requires
            weapons.len() > 2,
            forall|i: int| 0 <= i < weapons.len() ==> #[trigger] weapons[i].clip >= 0,
        ensures
            l.wf(),
            l@.weapons == weapons@,
            l@.current == 2,
            l@.clip.len() == weapons.len(),
            forall|i: int| 0 <= i < weapons.len() ==> #[trigger] l@.clip[i] == weapons[i].clip,
            l@.rounds == 96,
            l@.shells == 24,
            l@.rockets == 3,
            l@.fuel == 200,
            l@.grenades == 4,
    {
        let mut clip: Vec<i32> = Vec::new();
        let mut i: usize = 0;
        while i < weapons.len()
            invariant
                i <= weapons.len(),
                clip.len() == i,
                forall|j: int| 0 <= j < i ==> #[trigger] clip[j] == weapons[j].clip,
            decreases weapons.len() - i,
        {
            clip.push(weapons[i].clip);
            i = i + 1;
        }
        Loadout { weapons, current: 2, clip, rounds: 96, shells: 24, rockets: 3, fuel: 200, grenades: 4 }
    }

    /// The weapon in hand.
    pub fn weapon(&self) -> (w: WeaponSpec)
        requires
            self.wf(),
        ensures
            w == held(self@),
    {
        self.weapons[self.current]
    }

    /// Slot of the weapon in hand.
    pub fn current(&self) -> (c: usize)
        ensures
            c == self@.current,
    {
        self.current
    }

    /// Number of weapon slots.
    pub fn weapon_count(&self) -> (n: usize)
        ensures
            n == self@.weapons.len(),
    {
        self.weapons.len()
    }

    /// Rounds in the magazine of slot `i`.
    pub fn clip_of(&self, i: usize) -> (n: i32)
        requires
            self.wf(),
            i < self@.clip.len(),
        ensures
            n == self@.clip[i as int],
    {
        self.clip[i]
    }

    /// Rounds in the magazine of the weapon in hand.
    pub fn in_clip(&self) -> (n: i32)
        requires
            self.wf(),
        ensures
            n == loaded(self@),
    {
        self.clip[self.current]
    }

    /// Grenades left.
    pub fn grenades(&self) -> (n: i32)
        ensures
            n == self@.grenades,
    {
        self.grenades
    }

    /// The reserve of ammunition `a` (999 for `Ammo::Nil`).
    pub fn ammo_for(&self, a: Ammo) -> (n: i32)
        ensures
            n == ammo_of(self@, a),
    {
        match a {
            Ammo::Rounds => self.rounds,
            Ammo::Shells => self.shells,
            Ammo::Rockets => self.rockets,
            Ammo::Fuel => self.fuel,
            Ammo::Nil => 999,
        }
    }

    /// Set the reserve of ammunition `a` to `n` (no effect for `Ammo::Nil`).
    fn set_ammo(&mut self, a: Ammo, n: i32)
        ensures
            final(self)@ == with_ammo(old(self)@, a, n),
    {
        match a {
            Ammo::Rounds => self.rounds = n,
            Ammo::Shells => self.shells = n,
            Ammo::Rockets => self.rockets = n,
            Ammo::Fuel => self.fuel = n,
            Ammo::Nil => {},
        }
    }

    /// Whether a reload of the weapon in hand may start now; `reloading` says
    /// one is already running. The caller starts the reload timer on `true`.
    pub fn start_reload(&self, reloading: bool) -> (ok: bool)
        requires
            self.wf(),
        ensures
            ok == reload_allowed(self@, reloading),
    {
        let w = self.weapons[self.current];
        if w.kind == WeaponKind::Melee || reloading {
            return false;
        }
        if self.clip[self.current] >= w.clip {
            return false;
        }
        self.ammo_for(w.ammo) > 0
    }

    /// Whether an empty firearm should start reloading by itself: not
    /// reloading, magazine empty and reserve ammunition left.
    pub fn auto_reload(&self, reloading: bool) -> (ok: bool)
        requires
            self.wf(),
        ensures
            ok == (reload_allowed(self@, reloading) && loaded(self@) <= 0),
    {
        self.clip[self.current] <= 0 && self.start_reload(reloading)
    }

    /// The reload timer ran out: move ammunition from the reserve into the
    /// magazine of the weapon in hand. Rounds are neither made nor lost.
    pub fn finish_reload(&mut self)
        requires
            old(self).wf(),
        ensures
            final(self).wf(),
            final(self)@ == after_reload(old(self)@),
            held(old(self)@).ammo != Ammo::Nil ==> loaded(final(self)@) + ammo_of(
                final(self)@,
                held(old(self)@).ammo,
            ) == loaded(old(self)@) + ammo_of(old(self)@, held(old(self)@).ammo),
            held(old(self)@).ammo != Ammo::Nil ==> (loaded(final(self)@) == held(old(self)@).clip
                || ammo_of(final(self)@, held(old(self)@).ammo) == 0),
            loaded(final(self)@) >= loaded(old(self)@),
    {
        let cur = self.current;
        let w = self.weapons[cur];
        let c = self.clip[cur];
        let need = w.clip - c;
        let have = self.ammo_for(w.ammo);
        let take = if need < have { need } else { have };
        self.clip.set(cur, c + take);
        self.set_ammo(w.ammo, have - take);
        proof {
            let v = old(self)@;
            assert(self@.clip =~= v.clip.update(v.current, (c + take) as i32));
            assert forall|i: int| 0 <= i < self@.clip.len() implies 0 <= #[trigger] self@.clip[i]
                <= self@.weapons[i].clip by {
                if i != cur as int {
                    assert(self@.clip[i] == v.clip[i]);
                }
            }
        }
    }

    /// Whether the weapon in hand can fire now (`cooling`: the fire-rate
    /// cooldown is running; `reloading`: a reload is running).
    pub fn can_fire(&self, cooling: bool, reloading: bool) -> (ok: bool)
        requires
            self.wf(),
        ensures
            ok == fire_allowed(self@, cooling, reloading),
    {
        if cooling || reloading {
            return false;
        }
        let w = self.weapons[self.current];
        if w.kind == WeaponKind::Melee {
            return true;
        }
        self.clip[self.current] > 0
    }

    /// Spend the ammunition of one pull of the trigger and return the number
    /// of rounds fired: none for melee, every chambered shell for the
    /// side-by-side, one round otherwise.
    pub fn spend_shot(&mut self) -> (shots: i32)
        requires
            old(self).wf(),
            held(old(self)@).kind == WeaponKind::Melee || loaded(old(self)@) > 0,
        ensures
            final(self).wf(),
            shots == shot_cost(old(self)@),
            final(self)@ == with_clip(old(self)@, old(self)@.current, loaded(old(self)@) - shots),
            held(old(self)@).kind == WeaponKind::Melee ==> shots == 0 && final(self)@ == old(self)@,
            held(old(self)@).kind == WeaponKind::Sxs ==> shots == loaded(old(self)@) && loaded(final(self)@) == 0,
            held(old(self)@).kind != WeaponKind::Melee && held(old(self)@).kind != WeaponKind::Sxs ==> shots == 1
                && loaded(final(self)@) == loaded(old(self)@) - 1,
    {
        let cur = self.current;
        let w = self.weapons[cur];
        let c = self.clip[cur];
        let shots: i32 = match w.kind {
            WeaponKind::Melee => 0,
            WeaponKind::Sxs => c,
            _ => 1,
        };
        if shots > 0 {
            self.clip.set(cur, c - shots);
        }
        proof {
            let v = old(self)@;
            assert(self@.clip =~= v.clip.update(v.current, (c - shots) as i32));
            assert forall|i: int| 0 <= i < self@.clip.len() implies 0 <= #[trigger] self@.clip[i]
                <= self@.weapons[i].clip by {
                if i != cur as int {
                    assert(self@.clip[i] == v.clip[i]);
                }
            }
            if shots == 0 {
                assert(self@.clip =~= v.clip);
                assert(self@ == v);
            }
        }
        shots
    }

    /// Throw a grenade if any are left; returns whether one was thrown.
    pub fn throw_grenade(&mut self) -> (thrown: bool)
        requires
            old(self).wf(),
        ensures
            final(self).wf(),
            thrown == (old(self)@.grenades > 0),
            final(self)@ == (LoadoutView {
                grenades: if thrown { (old(self)@.grenades - 1) as i32 } else { old(self)@.grenades },
                ..old(self)@
            }),
    {
        if self.grenades > 0 {
            self.grenades = self.grenades - 1;
            true
        } else {
            false
        }
    }

    /// Take the weapon in `slot` in hand, if there is such a slot.
    pub fn select_slot(&mut self, slot: usize)
        requires
            old(self).wf(),
        ensures
            final(self).wf(),
            final(self)@ == (LoadoutView {
                current: if slot < old(self)@.weapons.len() { slot as int } else { old(self)@.current },
                ..old(self)@
            }),
    {
        if slot < self.weapons.len() {
            self.current = slot;
        }
    }

    /// Cycle to the next weapon.
    pub fn next_weapon(&mut self)
        requires
            old(self).wf(),
        ensures
            final(self).wf(),
            final(self)@ == (LoadoutView {
                current: next_slot(old(self)@.current, old(self)@.weapons.len() as int),
                ..old(self)@
            }),
    {
        if self.current < self.weapons.len() - 1 {
            self.current = self.current + 1;
        } else {
            self.current = 0;
        }
    }

    /// Cycle to the previous weapon.
    pub fn prev_weapon(&mut self)
        requires
            old(self).wf(),
        ensures
            final(self).wf(),
            final(self)@ == (LoadoutView {
                current: prev_slot(old(self)@.current, old(self)@.weapons.len() as int),
                ..old(self)@
            }),
    {
        if self.current == 0 {
            self.current = self.weapons.len() - 1;
        } else {
            self.current = self.current - 1;
        }
    }

    /// Apply the ammunition cheats for this frame. "All weapons" keeps every
    /// firearm's magazine full; "unlimited ammo" does too, pins the rounds,
    /// shells and rockets reserves at 999 and cancels any reload. Returns
    /// whether a reload is still running.
    pub fn apply_cheats(&mut self, all_weapons: bool, unlimited_ammo: bool, reloading: bool) -> (still: bool)
        requires
            old(self).wf(),
        ensures
            final(self).wf(),
            still == (reloading && !unlimited_ammo),
            final(self)@.weapons == old(self)@.weapons,
            final(self)@.current == old(self)@.current,
            final(self)@.clip.len() == old(self)@.clip.len(),
            forall|i: int|
                0 <= i < old(self)@.clip.len() ==> #[trigger] final(self)@.clip[i] == cheat_clip(
                    old(self)@,
                    i,
                    all_weapons,
                    unlimited_ammo,
                ),
            final(self)@.rounds == if unlimited_ammo { 999 } else { old(self)@.rounds },
            final(self)@.shells == if unlimited_ammo { 999 } else { old(self)@.shells },
            final(self)@.rockets == if unlimited_ammo { 999 } else { old(self)@.rockets },
            final(self)@.fuel == old(self)@.fuel,
            final(self)@.grenades == old(self)@.grenades,
    {
        let n = self.weapons.len();
        if all_weapons || unlimited_ammo {
            let mut i: usize = 0;
            while i < n
                invariant
                    n == self.weapons.len(),
                    self.weapons@ == old(self)@.weapons,
                    self.clip@.len() == n,
                    self.current == old(self)@.current,
                    self.rounds == old(self)@.rounds,
                    self.shells == old(self)@.shells,
                    self.rockets == old(self)@.rockets,
                    self.fuel == old(self)@.fuel,
                    self.grenades == old(self)@.grenades,
                    all_weapons || unlimited_ammo,
                    loadout_ok(old(self)@),
                    i <= n,
                    forall|j: int| 0 <= j < i ==> #[trigger] self.clip@[j] == cheat_clip(old(self)@, j, all_weapons, unlimited_ammo),
                    forall|j: int| i <= j < n ==> #[trigger] self.clip@[j] == old(self)@.clip[j],
                decreases n - i,
            {
                let cap = self.weapons[i].clip;
                if cap > 0 {
                    self.clip.set(i, cap);
                }
                i = i + 1;
            }
        }
        if unlimited_ammo {
            self.rounds = 999;
            self.shells = 999;
            self.rockets = 999;
        }
        proof {
            assert forall|i: int| 0 <= i < self@.clip.len() implies 0 <= #[trigger] self@.clip[i]
                <= self@.weapons[i].clip by {
                assert(self@.clip[i] == cheat_clip(old(self)@, i, all_weapons, unlimited_ammo));
            }
        }
        reloading && !unlimited_ammo
    }
}

} // verus!
