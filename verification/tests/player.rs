use rust_sc2::player::{AIBuild, Computer, Difficulty, GameResult, PlayerType, Race};
use rust_sc2::PlayerSettings;

#[test]
fn race_from_proto_reads_no_race_as_random() {
    assert_eq!(Race::from_proto(sc2_proto::common::Race::NoRace), Race::Random);
    assert_eq!(Race::from_proto(sc2_proto::common::Race::Terran), Race::Terran);
    assert_eq!(Race::from_proto(sc2_proto::common::Race::Zerg), Race::Zerg);
    assert_eq!(Race::from_proto(sc2_proto::common::Race::Protoss), Race::Protoss);
    assert_eq!(Race::from_proto(sc2_proto::common::Race::Random), Race::Random);
}

#[test]
fn race_into_proto_round_trip() {
    for race in [Race::Terran, Race::Zerg, Race::Protoss, Race::Random] {
        assert_eq!(Race::from_proto(race.into_proto()), race);
        assert_eq!(Race::from_code(race.code()), race);
    }
    assert_eq!(Race::Zerg.into_proto(), sc2_proto::common::Race::Zerg);
}

#[test]
fn player_settings_new_defaults() {
    let s = PlayerSettings::new(Race::Zerg, Some("Bot"));
    assert_eq!(s.race(), Race::Zerg);
    assert_eq!(s.name(), Some("Bot"));
    assert!(!s.raw_affects_selection());
    assert!(!s.raw_crop_to_playable_area());
}

#[test]
fn computer_new_keeps_fields() {
    let c = Computer::new(Race::Protoss, Difficulty::Hard, Some(AIBuild::Rush));
    assert_eq!(c.race, Race::Protoss);
    assert_eq!(c.difficulty, Difficulty::Hard);
    assert_eq!(c.ai_build, Some(AIBuild::Rush));
    assert_eq!(PlayerType::from_proto(PlayerType::Computer.into_proto()), PlayerType::Computer);
    assert!(GameResult::from_proto(sc2_proto::sc2api::Result::Tie).is_tie());
}

#[test]
fn names_are_the_variant_names() {
    assert_eq!(Race::Random.name(), "Random");
    assert_eq!(Race::Terran.name(), "Terran");
    assert_eq!(Race::Protoss.name(), "Protoss");
    assert_eq!(Race::Zerg.name(), "Zerg");
    assert_eq!(Difficulty::VeryEasy.name(), "VeryEasy");
    assert_eq!(Difficulty::MediumHard.name(), "MediumHard");
    assert_eq!(Difficulty::CheatInsane.name(), "CheatInsane");
}

#[test]
fn names_are_read_back() {
    for race in [Race::Terran, Race::Zerg, Race::Protoss, Race::Random] {
        assert_eq!(Race::from_name(race.name()), Some(race));
    }
    assert_eq!(Race::from_name("terran"), None);
    assert_eq!(Race::from_name(""), None);
    assert_eq!(Race::from_name("Terran "), None);
    for n in 0..10 {
        let d = Difficulty::from_u64(n).unwrap();
        assert_eq!(Difficulty::from_name(d.name()), Some(d));
    }
    assert_eq!(Difficulty::from_name("Hard"), Some(Difficulty::Hard));
    assert_eq!(Difficulty::from_name("Harder"), Some(Difficulty::Harder));
    assert_eq!(Difficulty::from_name("Hardest"), None);
    assert_eq!(AIBuild::from_name("RandomBuild"), Some(AIBuild::RandomBuild));
    assert_eq!(AIBuild::from_name("Rush"), Some(AIBuild::Rush));
    assert_eq!(AIBuild::from_name("Timing"), Some(AIBuild::Timing));
    assert_eq!(AIBuild::from_name("Power"), Some(AIBuild::Power));
    assert_eq!(AIBuild::from_name("Macro"), Some(AIBuild::Macro));
    assert_eq!(AIBuild::from_name("Air"), Some(AIBuild::Air));
    assert_eq!(AIBuild::from_name("Random"), None);
}

#[test]
fn race_codes() {
    assert_eq!(Race::from_code(0), Race::Random);
    assert_eq!(Race::from_code(1), Race::Terran);
    assert_eq!(Race::from_code(2), Race::Zerg);
    assert_eq!(Race::from_code(3), Race::Protoss);
    assert_eq!(Race::from_code(4), Race::Random);
    assert_eq!(Race::from_code(5), Race::Random);
    assert_eq!(Race::from_code(u32::MAX), Race::Random);
    assert_eq!(Race::Random.code(), 4);
    assert_eq!(Race::default(), Race::Random);
    assert!(Race::Zerg.is_zerg() && !Race::Zerg.is_terran());
    assert!(Race::Protoss.is_protoss() && Race::Random.is_random());
}

#[test]
fn difficulty_from_number() {
    assert_eq!(Difficulty::from_u64(0), Some(Difficulty::VeryEasy));
    assert_eq!(Difficulty::from_u64(4), Some(Difficulty::Hard));
    assert_eq!(Difficulty::from_u64(9), Some(Difficulty::CheatInsane));
    assert_eq!(Difficulty::from_u64(10), None);
    assert_eq!(Difficulty::from_i64(-1), None);
    assert_eq!(Difficulty::from_i64(7), Some(Difficulty::CheatVision));
    assert_eq!(Difficulty::from_i64(i64::MAX), None);
}

#[test]
fn difficulty_proto_round_trip() {
    assert_eq!(Difficulty::Harder.into_proto(), sc2_proto::sc2api::Difficulty::Harder);
    assert_eq!(
        Difficulty::from_proto(sc2_proto::sc2api::Difficulty::CheatMoney),
        Difficulty::CheatMoney
    );
    for n in 0..10 {
        let d = Difficulty::from_u64(n).unwrap();
        assert_eq!(Difficulty::from_proto(d.into_proto()), d);
    }
}

#[test]
fn ai_build_protocol_numbers() {
    assert_eq!(AIBuild::from_proto(0), None);
    assert_eq!(AIBuild::from_proto(1), Some(AIBuild::RandomBuild));
    assert_eq!(AIBuild::from_proto(6), Some(AIBuild::Air));
    assert_eq!(AIBuild::from_proto(7), None);
    assert_eq!(AIBuild::Macro.into_proto(), 5);
    assert_eq!(AIBuild::default(), AIBuild::RandomBuild);
    for v in 1..=6 {
        assert_eq!(AIBuild::from_proto(v).unwrap().into_proto(), v);
    }
}

#[test]
fn game_result_from_proto() {
    assert_eq!(GameResult::from_proto(sc2_proto::sc2api::Result::Victory), GameResult::Victory);
    assert_eq!(GameResult::from_proto(sc2_proto::sc2api::Result::Defeat), GameResult::Defeat);
    assert_eq!(GameResult::from_proto(sc2_proto::sc2api::Result::Undecided), GameResult::Undecided);
    assert!(GameResult::Victory.is_victory());
    assert!(GameResult::Defeat.is_defeat());
    assert!(GameResult::Undecided.is_undecided());
    assert!(!GameResult::Tie.is_victory());
}

#[test]
fn player_type_proto_round_trip() {
    assert_eq!(PlayerType::Observer.into_proto(), sc2_proto::sc2api::PlayerType::Observer);
    assert_eq!(
        PlayerType::from_proto(sc2_proto::sc2api::PlayerType::Participant),
        PlayerType::Participant
    );
}

#[test]
fn player_settings_configured() {
    let s = PlayerSettings::configured(Race::Terran, None, true, false);
    assert_eq!(s.race(), Race::Terran);
    assert_eq!(s.name(), None);
    assert!(s.raw_affects_selection());
    assert!(!s.raw_crop_to_playable_area());
    let s = PlayerSettings::configured(Race::Random, Some(""), false, true);
    assert_eq!(s.name(), Some(""));
    assert!(s.raw_crop_to_playable_area());
}
