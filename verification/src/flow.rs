//! Top-level game flow (menu, options, playing, game over) and the cheat
//! toggles of the options screen.

use vstd::prelude::*;

verus! {

/// Top-level game flow.
#[derive(Clone, Copy, PartialEq, Eq, Structural, Debug, Hash)]
pub enum GameState {
    Menu,
    Options,
    Playing,
    GameOver,
}

impl Default for GameState {
    fn default() -> (s: Self)
        ensures
            s == GameState::Menu,
    {
        GameState::Menu
    }
}

/// The buttons of the menu and options screens.
#[derive(Clone, Copy, PartialEq, Eq, Structural, Debug)]
pub enum MenuButton {
    Play,
    Options,
    Back,
    /// Cycles the scenario; stays on the screen.
    CycleScene,
}

/// The keys the menu and options screens react to.
#[derive(Clone, Copy, PartialEq, Eq, Structural, Debug)]
pub enum MenuKey {
    Enter,
    Space,
    /// The letter O.
    Options,
    Escape,
    /// Any other key.
    Other,
}

/// Where pressing a menu button leads.
pub open spec fn spec_button_target(b: MenuButton) -> Option<GameState> {
    match b {
        MenuButton::Play => Some(GameState::Playing),
        MenuButton::Options => Some(GameState::Options),
        MenuButton::Back => Some(GameState::Menu),
        MenuButton::CycleScene => None,
    }
}

/// The state a pressed menu button switches to, if any.
pub fn button_target(b: MenuButton) -> (r: Option<GameState>)
    ensures
        r == spec_button_target(b),
{
    match b {
        MenuButton::Play => Some(GameState::Playing),
        MenuButton::Options => Some(GameState::Options),
        MenuButton::Back => Some(GameState::Menu),
        MenuButton::CycleScene => None,
    }
}

/// Keyboard shortcuts: Enter or Space starts a run from the menu, O opens
/// the options, Escape leaves the options for the menu.
pub open spec fn spec_menu_key(s: GameState, k: MenuKey) -> Option<GameState> {
    match s {
        GameState::Menu => match k {
            MenuKey::Enter | MenuKey::Space => Some(GameState::Playing),
            MenuKey::Options => Some(GameState::Options),
            _ => None,
        },
        GameState::Options => match k {
            MenuKey::Escape => Some(GameState::Menu),
            _ => None,
        },
        _ => None,
    }
}

/// The state a just-pressed key switches to on the menu or options screen.
pub fn menu_key(s: GameState, k: MenuKey) -> (r: Option<GameState>)
    ensures
        r == spec_menu_key(s, k),
{
    match s {
        GameState::Menu => match k {
            MenuKey::Enter | MenuKey::Space => Some(GameState::Playing),
            MenuKey::Options => Some(GameState::Options),
            _ => None,
        },
        GameState::Options => match k {
            MenuKey::Escape => Some(GameState::Menu),
            _ => None,
        },
        _ => None,
    }
}

/// Any key, click or tap on the menu or the game-over screen starts a run.
pub open spec fn spec_press_any_key(s: GameState) -> Option<GameState> {
    match s {
        GameState::Menu | GameState::GameOver => Some(GameState::Playing),
        _ => None,
    }
}

/// The state an input on the menu or game-over screen switches to.
pub fn press_any_key(s: GameState) -> (r: Option<GameState>)
    ensures
        r == spec_press_any_key(s),
{
    match s {
        GameState::Menu | GameState::GameOver => Some(GameState::Playing),
        _ => None,
    }
}

/// The run ends when the player's health is gone.
pub open spec fn spec_check_death(s: GameState, dead: bool) -> Option<GameState> {
    if dead && s == GameState::Playing { Some(GameState::GameOver) } else { None }
}

/// During play, a player without health ends the run.
pub fn check_death(s: GameState, dead: bool) -> (r: Option<GameState>)
    ensures
        r == spec_check_death(s, dead),
{
    if dead && s == GameState::Playing {
        Some(GameState::GameOver)
    } else {
        None
    }
}

/// After a death there is always a way back into a run, and from the menu a
/// run is one key away; the options screen leads back to the menu.
pub proof fn lemma_flow_recovers()
    ensures
        spec_check_death(GameState::Playing, true) == Some(GameState::GameOver),
        spec_press_any_key(GameState::GameOver) == Some(GameState::Playing),
        spec_menu_key(GameState::Menu, MenuKey::Enter) == Some(GameState::Playing),
        spec_menu_key(GameState::Options, MenuKey::Escape) == Some(GameState::Menu),
        forall|s: GameState| #[trigger] spec_press_any_key(s) is Some ==> spec_press_any_key(s) == Some(
            GameState::Playing,
        ),
{
}

/// The options screen's cheat toggles.
#[derive(Clone, Copy, PartialEq, Eq, Structural, Debug)]
pub enum Cheat {
    /// Every gun stays topped up.
    AllWeapons,
    /// Reserves never deplete and the magazine stays full.
    UnlimitedAmmo,
    /// The stamina bar stays full.
    SuperStamina,
    /// Incoming damage is cut to a tenth.
    SuperArmor,
}

/// Which cheats are on.
#[derive(Clone, Copy, PartialEq, Eq, Structural, Debug)]
pub struct Cheats {
    pub all_weapons: bool,
    pub unlimited_ammo: bool,
    pub super_stamina: bool,
    pub super_armor: bool,
}

/// Whether cheat `c` is on in `s`.
pub open spec fn spec_cheat(s: Cheats, c: Cheat) -> bool {
    match c {
        Cheat::AllWeapons => s.all_weapons,
        Cheat::UnlimitedAmmo => s.unlimited_ammo,
        Cheat::SuperStamina => s.super_stamina,
        Cheat::SuperArmor => s.super_armor,
    }
}

/// `s` with cheat `c` switched.
pub open spec fn spec_toggle(s: Cheats, c: Cheat) -> Cheats {
    match c {
        Cheat::AllWeapons => Cheats { all_weapons: !s.all_weapons, ..s },
        Cheat::UnlimitedAmmo => Cheats { unlimited_ammo: !s.unlimited_ammo, ..s },
        Cheat::SuperStamina => Cheats { super_stamina: !s.super_stamina, ..s },
        Cheat::SuperArmor => Cheats { super_armor: !s.super_armor, ..s },
    }
}

impl Cheats {
    /// Whether cheat `c` is on.
    pub fn cheat(&self, c: Cheat) -> (on: bool)
        ensures
            on == spec_cheat(*self, c),
    {
        match c {
            Cheat::AllWeapons => self.all_weapons,
            Cheat::UnlimitedAmmo => self.unlimited_ammo,
            Cheat::SuperStamina => self.super_stamina,
            Cheat::SuperArmor => self.super_armor,
        }
    }

    /// Switch cheat `c` on or off.
    pub fn toggle_cheat(&mut self, c: Cheat)
        ensures
            *final(self) == spec_toggle(*old(self), c),
    {
        match c {
            Cheat::AllWeapons => self.all_weapons = !self.all_weapons,
            Cheat::UnlimitedAmmo => self.unlimited_ammo = !self.unlimited_ammo,
            Cheat::SuperStamina => self.super_stamina = !self.super_stamina,
            Cheat::SuperArmor => self.super_armor = !self.super_armor,
        }
    }
}

impl Default for Cheats {
    /// Every cheat off.
    fn default() -> (s: Self)
        ensures
            forall|c: Cheat| !#[trigger] spec_cheat(s, c),
    {
        Cheats { all_weapons: false, unlimited_ammo: false, super_stamina: false, super_armor: false }
    }
}

/// Toggling a cheat flips it and no other, and toggling it again restores
/// the settings.
pub proof fn lemma_toggle(s: Cheats, c: Cheat, d: Cheat)
    ensures
        spec_cheat(spec_toggle(s, c), c) == !spec_cheat(s, c),
        d != c ==> spec_cheat(spec_toggle(s, c), d) == spec_cheat(s, d),
        spec_toggle(spec_toggle(s, c), c) == s,
{
}

} // verus!
