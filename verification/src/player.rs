//! Items representing various player's data.
//!
//! Every enum here mirrors one enum of the game protocol. The conversions to
//! and from the protocol's generated enums are verified against the variants
//! of those enums, which Verus reads from the `sc2_proto` crate itself.

use vstd::prelude::*;
use sc2_proto::common::Race as ProtoRace;
use sc2_proto::sc2api::Difficulty as ProtoDifficulty;
use sc2_proto::sc2api::PlayerType as ProtoPlayerType;
use sc2_proto::sc2api::Result as ProtoGameResult;

verus! {

/// Makes the protocol's race enum, with its five variants, known to Verus.
#[verifier::external_type_specification]
pub struct ExProtoRace(ProtoRace);

/// Makes the protocol's difficulty enum, with its ten variants, known to Verus.
#[verifier::external_type_specification]
pub struct ExProtoDifficulty(ProtoDifficulty);

/// Makes the protocol's player type enum, with its three variants, known to Verus.
#[verifier::external_type_specification]
pub struct ExProtoPlayerType(ProtoPlayerType);

/// Makes the protocol's game result enum, with its four variants, known to Verus.
#[verifier::external_type_specification]
pub struct ExProtoGameResult(ProtoGameResult);

/// Whether two strings hold the same characters.
fn same_text(a: &str, b: &str) -> (same: bool)
    ensures
        same == (a@ == b@),
{
    let left = a.to_owned();
    let right = b.to_owned();
    left == right
}

/// Representation of game races.
#[derive(Debug, Copy, Clone, PartialEq, Eq, Hash, Structural)]
pub enum Race {
    /// Brutal mens, who try to survive in this world.
    Terran,
    /// Ruthless insects of incredibly big size.
    Zerg,
    /// Kinda high-tech guys, who build cannons and batteries near your base.
    Protoss,
    /// Use when you didn't decide your race yet or just want to play them all.
    Random,
}

impl Race {
    /// The race that a protocol race stands for: `NoRace` reads as `Random`.
    pub open spec fn of_proto(race: ProtoRace) -> Race {
        match race {
            ProtoRace::Terran => Race::Terran,
            ProtoRace::Zerg => Race::Zerg,
            ProtoRace::Protoss => Race::Protoss,
            ProtoRace::Random => Race::Random,
            ProtoRace::NoRace => Race::Random,
        }
    }

    /// The race that a raw protocol number stands for. Numbers outside the
    /// protocol's range, and the number of `NoRace`, read as `Random`.
    pub open spec fn of_code(code: u32) -> Race {
        if code == 1 {
            Race::Terran
        } else if code == 2 {
            Race::Zerg
        } else if code == 3 {
            Race::Protoss
        } else {
            Race::Random
        }
    }

    /// The protocol number of a race.
    pub open spec fn code_spec(self) -> u32 {
        match self {
            Race::Terran => 1,
            Race::Zerg => 2,
            Race::Protoss => 3,
            Race::Random => 4,
        }
    }

    /// The display name of a race.
    pub open spec fn name_spec(self) -> Seq<char> {
        match self {
            Race::Random => "Random"@,
            Race::Terran => "Terran"@,
            Race::Protoss => "Protoss"@,
            Race::Zerg => "Zerg"@,
        }
    }

    pub fn from_proto(race: ProtoRace) -> (r: Race)
        ensures
            r == Race::of_proto(race),
    {
        match race {
            ProtoRace::Terran => Race::Terran,
            ProtoRace::Zerg => Race::Zerg,
            ProtoRace::Protoss => Race::Protoss,
            ProtoRace::Random => Race::Random,
            ProtoRace::NoRace => Race::Random,
        }
    }

    pub fn into_proto(self) -> (p: ProtoRace)
        ensures
            p == match self {
                Race::Terran => ProtoRace::Terran,
                Race::Zerg => ProtoRace::Zerg,
                Race::Protoss => ProtoRace::Protoss,
                Race::Random => ProtoRace::Random,
            },
            Race::of_proto(p) == self,
    {
        match self {
            Race::Terran => ProtoRace::Terran,
            Race::Zerg => ProtoRace::Zerg,
            Race::Protoss => ProtoRace::Protoss,
            Race::Random => ProtoRace::Random,
        }
    }

    /// Reads a raw protocol number, as it stands in a snapshot.
    pub fn from_code(code: u32) -> (r: Race)
        ensures
            r == Race::of_code(code),
    {
        if code == 1 {
            Race::Terran
        } else if code == 2 {
            Race::Zerg
        } else if code == 3 {
            Race::Protoss
        } else {
            Race::Random
        }
    }

    /// The protocol number of this race.
    pub fn code(self) -> (c: u32)
        ensures
            c == self.code_spec(),
            Race::of_code(c) == self,
    {
        match self {
            Race::Terran => 1,
            Race::Zerg => 2,
            Race::Protoss => 3,
            Race::Random => 4,
        }
    }

    /// The name of the race, as it is shown to a user.
    pub fn name(self) -> (s: &'static str)
        ensures
            s@ == self.name_spec(),
    {
        match self {
            Race::Random => "Random",
            Race::Terran => "Terran",
            Race::Protoss => "Protoss",
            Race::Zerg => "Zerg",
        }
    }

    /// The race with the given display name, if the text is one.
    pub open spec fn named(text: Seq<char>) -> Option<Race> {
        if text == "Random"@ {
            Some(Race::Random)
        } else if text == "Terran"@ {
            Some(Race::Terran)
        } else if text == "Protoss"@ {
            Some(Race::Protoss)
        } else if text == "Zerg"@ {
            Some(Race::Zerg)
        } else {
            None
        }
    }

    /// Reads the name of a race, written as [`Race::name`] writes it.
    pub fn from_name(text: &str) -> (r: Option<Race>)
        ensures
            r == Race::named(text@),
    {
        if same_text(text, "Random") {
            Some(Race::Random)
        } else if same_text(text, "Terran") {
            Some(Race::Terran)
        } else if same_text(text, "Protoss") {
            Some(Race::Protoss)
        } else if same_text(text, "Zerg") {
            Some(Race::Zerg)
        } else {
            None
        }
    }

    pub fn is_terran(self) -> (b: bool)
        ensures
            b == (self == Race::Terran),
    {
        matches!(self, Race::Terran)
    }

    pub fn is_zerg(self) -> (b: bool)
        ensures
            b == (self == Race::Zerg),
    {
        matches!(self, Race::Zerg)
    }

    pub fn is_protoss(self) -> (b: bool)
        ensures
            b == (self == Race::Protoss),
    {
        matches!(self, Race::Protoss)
    }

    pub fn is_random(self) -> (b: bool)
        ensures
            b == (self == Race::Random),
    {
        matches!(self, Race::Random)
    }
}

impl Default for Race {
    fn default() -> (r: Race)
        ensures
            r == Race::Random,
    {
        Race::Random
    }
}

/// Difficulty of in-game AI.
#[derive(Debug, Copy, Clone, PartialEq, Eq, Structural)]
pub enum Difficulty {
    VeryEasy,
    Easy,
    Medium,
    MediumHard,
    Hard,
    Harder,
    VeryHard,
    CheatVision,
    CheatMoney,
    CheatInsane,
}

impl Difficulty {
    /// The difficulty that a protocol difficulty stands for.
    pub open spec fn of_proto(difficulty: ProtoDifficulty) -> Difficulty {
        match difficulty {
            ProtoDifficulty::VeryEasy => Difficulty::VeryEasy,
            ProtoDifficulty::Easy => Difficulty::Easy,
            ProtoDifficulty::Medium => Difficulty::Medium,
            ProtoDifficulty::MediumHard => Difficulty::MediumHard,
            ProtoDifficulty::Hard => Difficulty::Hard,
            ProtoDifficulty::Harder => Difficulty::Harder,
            ProtoDifficulty::VeryHard => Difficulty::VeryHard,
            ProtoDifficulty::CheatVision => Difficulty::CheatVision,
            ProtoDifficulty::CheatMoney => Difficulty::CheatMoney,
            ProtoDifficulty::CheatInsane => Difficulty::CheatInsane,
        }
    }

    /// The place of a difficulty in the declaration, counted from zero.
    pub open spec fn ordinal(self) -> int {
        match self {
            Difficulty::VeryEasy => 0,
            Difficulty::Easy => 1,
            Difficulty::Medium => 2,
            Difficulty::MediumHard => 3,
            Difficulty::Hard => 4,
            Difficulty::Harder => 5,
            Difficulty::VeryHard => 6,
            Difficulty::CheatVision => 7,
            Difficulty::CheatMoney => 8,
            Difficulty::CheatInsane => 9,
        }
    }

    /// The display name of a difficulty.
    pub open spec fn name_spec(self) -> Seq<char> {
        match self {
            Difficulty::VeryEasy => "VeryEasy"@,
            Difficulty::Easy => "Easy"@,
            Difficulty::Medium => "Medium"@,
            Difficulty::MediumHard => "MediumHard"@,
            Difficulty::Hard => "Hard"@,
            Difficulty::Harder => "Harder"@,
            Difficulty::VeryHard => "VeryHard"@,
            Difficulty::CheatVision => "CheatVision"@,
            Difficulty::CheatMoney => "CheatMoney"@,
            Difficulty::CheatInsane => "CheatInsane"@,
        }
    }

    pub fn from_proto(difficulty: ProtoDifficulty) -> (d: Difficulty)
        ensures
            d == Difficulty::of_proto(difficulty),
    {
        match difficulty {
            ProtoDifficulty::VeryEasy => Difficulty::VeryEasy,
            ProtoDifficulty::Easy => Difficulty::Easy,
            ProtoDifficulty::Medium => Difficulty::Medium,
            ProtoDifficulty::MediumHard => Difficulty::MediumHard,
            ProtoDifficulty::Hard => Difficulty::Hard,
            ProtoDifficulty::Harder => Difficulty::Harder,
            ProtoDifficulty::VeryHard => Difficulty::VeryHard,
            ProtoDifficulty::CheatVision => Difficulty::CheatVision,
            ProtoDifficulty::CheatMoney => Difficulty::CheatMoney,
            ProtoDifficulty::CheatInsane => Difficulty::CheatInsane,
        }
    }

    pub fn into_proto(self) -> (p: ProtoDifficulty)
        ensures
            Difficulty::of_proto(p) == self,
    {
        match self {
            Difficulty::VeryEasy => ProtoDifficulty::VeryEasy,
            Difficulty::Easy => ProtoDifficulty::Easy,
            Difficulty::Medium => ProtoDifficulty::Medium,
            Difficulty::MediumHard => ProtoDifficulty::MediumHard,
            Difficulty::Hard => ProtoDifficulty::Hard,
            Difficulty::Harder => ProtoDifficulty::Harder,
            Difficulty::VeryHard => ProtoDifficulty::VeryHard,
            Difficulty::CheatVision => ProtoDifficulty::CheatVision,
            Difficulty::CheatMoney => ProtoDifficulty::CheatMoney,
            Difficulty::CheatInsane => ProtoDifficulty::CheatInsane,
        }
    }

    /// The difficulty at the given place of the declaration, counted from
    /// zero; `None` where the number names no difficulty.
    pub fn from_u64(n: u64) -> (d: Option<Difficulty>)
        ensures
            n < 10 <==> d is Some,
            d matches Some(x) ==> x.ordinal() == n,
    {
        if n == 0 {
            Some(Difficulty::VeryEasy)
        } else if n == 1 {
            Some(Difficulty::Easy)
        } else if n == 2 {
            Some(Difficulty::Medium)
        } else if n == 3 {
            Some(Difficulty::MediumHard)
        } else if n == 4 {
            Some(Difficulty::Hard)
        } else if n == 5 {
            Some(Difficulty::Harder)
        } else if n == 6 {
            Some(Difficulty::VeryHard)
        } else if n == 7 {
            Some(Difficulty::CheatVision)
        } else if n == 8 {
            Some(Difficulty::CheatMoney)
        } else if n == 9 {
            Some(Difficulty::CheatInsane)
        } else {
            None
        }
    }

    /// As [`Difficulty::from_u64`], for a signed number.
    pub fn from_i64(n: i64) -> (d: Option<Difficulty>)
        ensures
            0 <= n < 10 <==> d is Some,
            d matches Some(x) ==> x.ordinal() == n,
    {
        if n < 0 {
            None
        } else {
            Difficulty::from_u64(n as u64)
        }
    }

    /// The difficulty with the given display name, if the text is one.
    pub open spec fn named(text: Seq<char>) -> Option<Difficulty> {
        if text == "VeryEasy"@ {
            Some(Difficulty::VeryEasy)
        } else if text == "Easy"@ {
            Some(Difficulty::Easy)
        } else if text == "Medium"@ {
            Some(Difficulty::Medium)
        } else if text == "MediumHard"@ {
            Some(Difficulty::MediumHard)
        } else if text == "Hard"@ {
            Some(Difficulty::Hard)
        } else if text == "Harder"@ {
            Some(Difficulty::Harder)
        } else if text == "VeryHard"@ {
            Some(Difficulty::VeryHard)
        } else if text == "CheatVision"@ {
            Some(Difficulty::CheatVision)
        } else if text == "CheatMoney"@ {
            Some(Difficulty::CheatMoney)
        } else if text == "CheatInsane"@ {
            Some(Difficulty::CheatInsane)
        } else {
            None
        }
    }

    /// Reads the name of a difficulty, written as [`Difficulty::name`]
    /// writes it.
    pub fn from_name(text: &str) -> (d: Option<Difficulty>)
        ensures
            d == Difficulty::named(text@),
    {
        if same_text(text, "VeryEasy") {
            Some(Difficulty::VeryEasy)
        } else if same_text(text, "Easy") {
            Some(Difficulty::Easy)
        } else if same_text(text, "Medium") {
            Some(Difficulty::Medium)
        } else if same_text(text, "MediumHard") {
            Some(Difficulty::MediumHard)
        } else if same_text(text, "Hard") {
            Some(Difficulty::Hard)
        } else if same_text(text, "Harder") {
            Some(Difficulty::Harder)
        } else if same_text(text, "VeryHard") {
            Some(Difficulty::VeryHard)
        } else if same_text(text, "CheatVision") {
            Some(Difficulty::CheatVision)
        } else if same_text(text, "CheatMoney") {
            Some(Difficulty::CheatMoney)
        } else if same_text(text, "CheatInsane") {
            Some(Difficulty::CheatInsane)
        } else {
            None
        }
    }

    /// The name of the difficulty, as it is shown to a user.
    pub fn name(self) -> (s: &'static str)
        ensures
            s@ == self.name_spec(),
    {
        match self {
            Difficulty::VeryEasy => "VeryEasy",
            Difficulty::Easy => "Easy",
            Difficulty::Medium => "Medium",
            Difficulty::MediumHard => "MediumHard",
            Difficulty::Hard => "Hard",
            Difficulty::Harder => "Harder",
            Difficulty::VeryHard => "VeryHard",
            Difficulty::CheatVision => "CheatVision",
            Difficulty::CheatMoney => "CheatMoney",
            Difficulty::CheatInsane => "CheatInsane",
        }
    }
}

/// Strategy build of in-game AI.
#[derive(Debug, Copy, Clone, PartialEq, Eq, Structural)]
pub enum AIBuild {
    RandomBuild,
    Rush,
    Timing,
    Power,
    Macro,
    Air,
}

impl AIBuild {
    /// The protocol number of a build.
    pub open spec fn code_spec(self) -> i32 {
        match self {
            AIBuild::RandomBuild => 1,
            AIBuild::Rush => 2,
            AIBuild::Timing => 3,
            AIBuild::Power => 4,
            AIBuild::Macro => 5,
            AIBuild::Air => 6,
        }
    }

    /// The build with the given name, if the text is one.
    pub open spec fn named(text: Seq<char>) -> Option<AIBuild> {
        if text == "RandomBuild"@ {
            Some(AIBuild::RandomBuild)
        } else if text == "Rush"@ {
            Some(AIBuild::Rush)
        } else if text == "Timing"@ {
            Some(AIBuild::Timing)
        } else if text == "Power"@ {
            Some(AIBuild::Power)
        } else if text == "Macro"@ {
            Some(AIBuild::Macro)
        } else if text == "Air"@ {
            Some(AIBuild::Air)
        } else {
            None
        }
    }

    /// Reads the name of a build: the name of its variant.
    pub fn from_name(text: &str) -> (b: Option<AIBuild>)
        ensures
            b == AIBuild::named(text@),
    {
        if same_text(text, "RandomBuild") {
            Some(AIBuild::RandomBuild)
        } else if same_text(text, "Rush") {
            Some(AIBuild::Rush)
        } else if same_text(text, "Timing") {
            Some(AIBuild::Timing)
        } else if same_text(text, "Power") {
            Some(AIBuild::Power)
        } else if same_text(text, "Macro") {
            Some(AIBuild::Macro)
        } else if same_text(text, "Air") {
            Some(AIBuild::Air)
        } else {
            None
        }
    }

    /// Reads the protocol number of a build; `None` where the number names
    /// no build.
    pub fn from_proto(value: i32) -> (b: Option<AIBuild>)
        ensures
            1 <= value <= 6 <==> b is Some,
            b matches Some(x) ==> x.code_spec() == value,
    {
        if value == 1 {
            Some(AIBuild::RandomBuild)
        } else if value == 2 {
            Some(AIBuild::Rush)
        } else if value == 3 {
            Some(AIBuild::Timing)
        } else if value == 4 {
            Some(AIBuild::Power)
        } else if value == 5 {
            Some(AIBuild::Macro)
        } else if value == 6 {
            Some(AIBuild::Air)
        } else {
            None
        }
    }

    /// The protocol number of this build.
    pub fn into_proto(self) -> (value: i32)
        ensures
            value == self.code_spec(),
    {
        match self {
            AIBuild::RandomBuild => 1,
            AIBuild::Rush => 2,
            AIBuild::Timing => 3,
            AIBuild::Power => 4,
            AIBuild::Macro => 5,
            AIBuild::Air => 6,
        }
    }
}

impl Default for AIBuild {
    fn default() -> (b: AIBuild)
        ensures
            b == AIBuild::RandomBuild,
    {
        AIBuild::RandomBuild
    }
}

/// Type of the player, used when joining a game.
#[derive(Debug, Copy, Clone, PartialEq, Eq, Structural)]
pub enum PlayerType {
    /// Bot or Human.
    Participant,
    /// In-game AI (aka Computer).
    Computer,
    /// Player who just watch game or replay.
    Observer,
}

impl PlayerType {
    /// The player type that a protocol player type stands for.
    pub open spec fn of_proto(player_type: ProtoPlayerType) -> PlayerType {
        match player_type {
            ProtoPlayerType::Participant => PlayerType::Participant,
            ProtoPlayerType::Computer => PlayerType::Computer,
            ProtoPlayerType::Observer => PlayerType::Observer,
        }
    }

    pub fn from_proto(player_type: ProtoPlayerType) -> (t: PlayerType)
        ensures
            t == PlayerType::of_proto(player_type),
    {
        match player_type {
            ProtoPlayerType::Participant => PlayerType::Participant,
            ProtoPlayerType::Computer => PlayerType::Computer,
            ProtoPlayerType::Observer => PlayerType::Observer,
        }
    }

    pub fn into_proto(self) -> (p: ProtoPlayerType)
        ensures
            PlayerType::of_proto(p) == self,
    {
        match self {
            PlayerType::Participant => ProtoPlayerType::Participant,
            PlayerType::Computer => ProtoPlayerType::Computer,
            PlayerType::Observer => ProtoPlayerType::Observer,
        }
    }
}

/// Computer opponent configuration.
pub struct Computer {
    pub race: Race,
    pub difficulty: Difficulty,
    pub ai_build: Option<AIBuild>,
}

impl Computer {
    pub fn new(race: Race, difficulty: Difficulty, ai_build: Option<AIBuild>) -> (c: Computer)
        ensures
            c.race == race,
            c.difficulty == difficulty,
            c.ai_build == ai_build,
    {
        Computer { race, difficulty, ai_build }
    }
}

/// Game result for a bot, passed to [`Player::on_end`](crate::Player::on_end).
#[derive(Debug, Copy, Clone, PartialEq, Eq, Structural)]
pub enum GameResult {
    Victory,
    Defeat,
    Tie,
    Undecided,
}

impl GameResult {
    /// The result that a protocol result stands for.
    pub open spec fn of_proto(result: ProtoGameResult) -> GameResult {
        match result {
            ProtoGameResult::Victory => GameResult::Victory,
            ProtoGameResult::Defeat => GameResult::Defeat,
            ProtoGameResult::Tie => GameResult::Tie,
            ProtoGameResult::Undecided => GameResult::Undecided,
        }
    }

    pub fn from_proto(result: ProtoGameResult) -> (r: GameResult)
        ensures
            r == GameResult::of_proto(result),
    {
        match result {
            ProtoGameResult::Victory => GameResult::Victory,
            ProtoGameResult::Defeat => GameResult::Defeat,
            ProtoGameResult::Tie => GameResult::Tie,
            ProtoGameResult::Undecided => GameResult::Undecided,
        }
    }

    pub fn is_victory(self) -> (b: bool)
        ensures
            b == (self == GameResult::Victory),
    {
        matches!(self, GameResult::Victory)
    }

    pub fn is_defeat(self) -> (b: bool)
        ensures
            b == (self == GameResult::Defeat),
    {
        matches!(self, GameResult::Defeat)
    }

    pub fn is_tie(self) -> (b: bool)
        ensures
            b == (self == GameResult::Tie),
    {
        matches!(self, GameResult::Tie)
    }

    pub fn is_undecided(self) -> (b: bool)
        ensures
            b == (self == GameResult::Undecided),
    {
        matches!(self, GameResult::Undecided)
    }
}

} // verus!
