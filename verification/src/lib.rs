//! Client-side core of a StarCraft II agent runtime.
//!
//! The game engine advances in discrete steps and answers each request with a
//! snapshot of what is true now: the visible units, the resources, the alerts.
//! It never says what changed or why. This crate keeps a consistent world
//! model across those snapshots, derives the events that an agent cares about,
//! lets the agent plan against resources that it has committed but the engine
//! has not yet taken, and batches the orders that the agent gives.

use vstd::prelude::*;

pub mod action;
pub mod bot;
pub mod events;
pub mod laws;
pub mod ledger;
pub mod player;
pub mod unit;
pub mod units;
pub mod world;

use crate::player::{GameResult, Race};

verus! {

/// Settings that must be provided by a player when joining a game.
pub struct PlayerSettings {
    race: Race,
    name: Option<String>,
    raw_affects_selection: bool,
    raw_crop_to_playable_area: bool,
}

/// What a [`PlayerSettings`] value holds.
pub struct PlayerSettingsView {
    pub race: Race,
    pub name: Option<Seq<char>>,
    pub raw_affects_selection: bool,
    pub raw_crop_to_playable_area: bool,
}

impl View for PlayerSettings {
    type V = PlayerSettingsView;

    closed spec fn view(&self) -> PlayerSettingsView {
        PlayerSettingsView {
            race: self.race,
            name: match self.name {
                Some(n) => Some(n@),
                None => None,
            },
            raw_affects_selection: self.raw_affects_selection,
            raw_crop_to_playable_area: self.raw_crop_to_playable_area,
        }
    }
}

/// The characters of an optional name.
pub open spec fn name_view(name: Option<&str>) -> Option<Seq<char>> {
    match name {
        Some(n) => Some(n@),
        None => None,
    }
}

impl PlayerSettings {
    /// Constructs new settings with given `Race` and name.
    /// `raw_affects_selection` and `raw_crop_to_playable_area` are `false` by default.
    pub fn new(race: Race, name: Option<&str>) -> (s: PlayerSettings)
        ensures
            s@ == (PlayerSettingsView {
                race,
                name: name_view(name),
                raw_affects_selection: false,
                raw_crop_to_playable_area: false,
            }),
    {
        PlayerSettings::configured(race, name, false, false)
    }

    /// Constructs new settings with more options given.
    ///
    /// `raw_affects_selection`: Bot will select units to which it gives orders.
    ///
    /// `raw_crop_to_playable_area`: Maps and all coordinates will be cropped to
    /// playable area. That means map will start from (0, 0) and finish on
    /// (playable area length by `x`, playable area length by `y`).
    pub fn configured(
        race: Race,
        name: Option<&str>,
        raw_affects_selection: bool,
        raw_crop_to_playable_area: bool,
    ) -> (s: PlayerSettings)
        ensures
            s@ == (PlayerSettingsView {
                race,
                name: name_view(name),
                raw_affects_selection,
                raw_crop_to_playable_area,
            }),
    {
        let name = match name {
            Some(n) => Some(n.to_owned()),
            None => None,
        };
        PlayerSettings { race, name, raw_affects_selection, raw_crop_to_playable_area }
    }

    /// The race that the player asks for.
    pub fn race(&self) -> (r: Race)
        ensures
            r == self@.race,
    {
        self.race
    }

    /// The name that the player joins under, if it gave one.
    pub fn name(&self) -> (n: Option<&str>)
        ensures
            name_view(n) == self@.name,
    {
        match &self.name {
            Some(n) => Some(n.as_str()),
            None => None,
        }
    }

    /// Whether the bot selects the units to which it gives orders.
    pub fn raw_affects_selection(&self) -> (b: bool)
        ensures
            b == self@.raw_affects_selection,
    {
        self.raw_affects_selection
    }

    /// Whether the map and all coordinates are cropped to the playable area.
    pub fn raw_crop_to_playable_area(&self) -> (b: bool)
        ensures
            b == self@.raw_crop_to_playable_area,
    {
        self.raw_crop_to_playable_area
    }
}

/// Events that happen in game.
/// Passed to [`Player::on_event`].
#[derive(Debug, Copy, Clone, PartialEq, Eq, Structural)]
pub enum Event {
    /// Unit died or structure destroyed (all units: your, enemy, neutral).
    UnitDestroyed(u64),
    /// Unit was seen for the first time.
    UnitCreated(u64),
    /// Worker started to build a structure (your only).
    ConstructionStarted(u64),
    /// Construction of a structure finished (your only).
    ConstructionComplete(u64),
    /// Detected actual race of random opponent.
    RandomRaceDetected(Race),
}

/// Why a callback of a [`Player`] gave up.
#[derive(Debug, Copy, Clone, PartialEq, Eq, Structural)]
pub enum PlayerError {
    /// The bot asks to leave the game.
    Quit,
    /// The bot failed in a way it could not recover from.
    Failed,
}

/// Trait that bots must implement.
pub trait Player {
    /// Returns settings used to connect bot to the game.
    fn get_player_settings(&self) -> PlayerSettings;

    /// Called once on first step (i.e on game start).
    fn on_start(&mut self) -> Result<(), PlayerError> {
        Ok(())
    }

    /// Called on every game step. (Main logic of the bot should be here)
    fn on_step(&mut self, _iteration: usize) -> Result<(), PlayerError> {
        Ok(())
    }

    /// Called once on last step with a result for your bot.
    fn on_end(&self, _result: GameResult) -> Result<(), PlayerError> {
        Ok(())
    }

    /// Called when different events happen.
    fn on_event(&mut self, _event: Event) -> Result<(), PlayerError> {
        Ok(())
    }
}

} // verus!
