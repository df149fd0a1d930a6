use rust_sc2::bot::Bot;
use rust_sc2::events::{derive_events, detect_race, Diff, Transition};
use rust_sc2::ledger::{Cost, Resources};
use rust_sc2::player::Race;
use rust_sc2::unit::{
    normalize, Catalog, Category, Order, Owner, Phase, Point2, RawUnit, Target, ALLIANCE_ALLY,
    ALLIANCE_ENEMY, ALLIANCE_NEUTRAL, ALLIANCE_SELF,
};
use rust_sc2::units::{Alert, Group, Partition, Snapshot, RETENTION_HORIZON};
use rust_sc2::world::World;
use rust_sc2::Event;

const PLACEHOLDER: u32 = 9000;
const BARRACKS: u32 = 21;
const COMMAND_CENTER: u32 = 18;
const REFINERY: u32 = 20;
const SCV: u32 = 45;
const MARINE: u32 = 48;
const LARVA: u32 = 151;
const ZERGLING: u32 = 105;
const MINERAL_FIELD: u32 = 341;
const TRAIN_MARINE: u32 = 560;

fn catalog() -> Catalog {
    let mut c = Catalog::new();
    c.register(PLACEHOLDER, Category::Placeholder);
    c.register(BARRACKS, Category::Structure);
    c.register(COMMAND_CENTER, Category::Townhall);
    c.register(REFINERY, Category::GasBuilding);
    c.register(SCV, Category::Worker);
    c.register(MARINE, Category::Army);
    c.register(ZERGLING, Category::Army);
    c.register(LARVA, Category::Larva);
    c.register(MINERAL_FIELD, Category::MineralField);
    c
}

fn raw(tag: u64, unit_type: u32, alliance: u32) -> RawUnit {
    RawUnit {
        tag,
        unit_type,
        alliance,
        position: Point2 { x: 0, y: 0 },
        health: 45,
        health_max: 45,
        shield: 0,
        orders: Vec::new(),
        under_construction: false,
        cloaked: false,
        flying: false,
        dead: false,
    }
}

fn building(tag: u64, unit_type: u32, under_construction: bool) -> RawUnit {
    let mut u = raw(tag, unit_type, ALLIANCE_SELF);
    u.under_construction = under_construction;
    u
}

fn snapshot(step: u32, units: Vec<RawUnit>, alerts: Vec<Alert>) -> Snapshot {
    Snapshot {
        step,
        units,
        alerts,
        resources: Resources { minerals: 0, vespene: 0, supply_used: 0, supply_cap: 0 },
        score: 0,
        opponent_race: 4,
    }
}

#[test]
fn construction_runs_through_its_phases() {
    let mut bot = Bot::new(catalog(), Race::Random);
    let events = bot.update(&snapshot(10, vec![raw(7, PLACEHOLDER, ALLIANCE_SELF)], vec![]));
    assert_eq!(events, vec![Event::UnitCreated(7)]);
    assert_eq!(bot.world().get(7).unwrap().phase, Phase::Ordered);

    let events = bot.update(&snapshot(11, vec![building(7, BARRACKS, true)], vec![]));
    assert_eq!(events, vec![Event::ConstructionStarted(7)]);
    assert_eq!(bot.world().get(7).unwrap().phase, Phase::Started);

    for step in 12..14 {
        let events = bot.update(&snapshot(step, vec![building(7, BARRACKS, true)], vec![]));
        assert_eq!(events, vec![]);
        assert_eq!(bot.world().get(7).unwrap().phase, Phase::InProgress);
    }

    let events = bot.update(&snapshot(14, vec![building(7, BARRACKS, false)], vec![]));
    assert_eq!(events, vec![Event::ConstructionComplete(7)]);
    assert_eq!(bot.world().get(7).unwrap().phase, Phase::Complete);

    let events = bot.update(&snapshot(15, vec![building(7, BARRACKS, false)], vec![]));
    assert_eq!(events, vec![]);
    assert_eq!(bot.world().get(7).unwrap().phase, Phase::Complete);
}

#[test]
fn placeholder_that_is_complete_at_once_only_starts() {
    let mut bot = Bot::new(catalog(), Race::Random);
    bot.update(&snapshot(1, vec![raw(7, PLACEHOLDER, ALLIANCE_SELF)], vec![]));
    let events = bot.update(&snapshot(2, vec![building(7, BARRACKS, false)], vec![]));
    assert_eq!(events, vec![Event::ConstructionStarted(7)]);
    let events = bot.update(&snapshot(3, vec![building(7, BARRACKS, false)], vec![]));
    assert_eq!(events, vec![]);
}

#[test]
fn structure_first_seen_under_construction_completes() {
    let mut bot = Bot::new(catalog(), Race::Random);
    let events = bot.update(&snapshot(1, vec![building(3, REFINERY, true)], vec![]));
    assert_eq!(events, vec![Event::UnitCreated(3)]);
    assert_eq!(bot.world().get(3).unwrap().phase, Phase::InProgress);
    let events = bot.update(&snapshot(2, vec![building(3, REFINERY, false)], vec![]));
    assert_eq!(events, vec![Event::ConstructionComplete(3)]);
}

#[test]
fn opponents_structures_give_no_construction_events() {
    let mut bot = Bot::new(catalog(), Race::Random);
    let mut enemy = raw(3, PLACEHOLDER, ALLIANCE_ENEMY);
    bot.update(&snapshot(1, vec![enemy], vec![]));
    enemy = raw(3, BARRACKS, ALLIANCE_ENEMY);
    enemy.under_construction = true;
    assert_eq!(bot.update(&snapshot(2, vec![enemy], vec![])), vec![]);
    enemy = raw(3, BARRACKS, ALLIANCE_ENEMY);
    assert_eq!(bot.update(&snapshot(3, vec![enemy], vec![])), vec![]);
    assert_eq!(bot.world().get(3).unwrap().phase, Phase::Untracked);
}

#[test]
fn every_reported_identity_is_in_exactly_one_partition() {
    let mut world = World::new();
    let units = vec![
        raw(1, SCV, ALLIANCE_SELF),
        raw(2, COMMAND_CENTER, ALLIANCE_SELF),
        raw(3, ZERGLING, ALLIANCE_ENEMY),
        raw(4, MINERAL_FIELD, ALLIANCE_NEUTRAL),
        raw(5, MARINE, ALLIANCE_ALLY),
        raw(6, 77777, 0),
    ];
    world.ingest(&snapshot(1, units, vec![]), &catalog());
    let all = [Partition::Mine, Partition::EnemyVisible, Partition::EnemyCached, Partition::Neutral];
    for tag in 1..=6u64 {
        let homes: Vec<Partition> =
            all.iter().copied().filter(|p| world.select(*p, Group::All).contains(&tag)).collect();
        assert_eq!(homes.len(), 1);
        assert_eq!(world.partition(tag), Some(homes[0]));
    }
    assert_eq!(world.select(Partition::Mine, Group::All), vec![1, 2]);
    assert_eq!(world.select(Partition::EnemyVisible, Group::All), vec![3]);
    assert_eq!(world.select(Partition::EnemyCached, Group::All), Vec::<u64>::new());
    assert_eq!(world.select(Partition::Neutral, Group::All), vec![4, 5, 6]);
    assert_eq!(world.partition(7), None);
}

#[test]
fn groups_overlap_within_a_partition() {
    let mut world = World::new();
    let units = vec![
        raw(1, SCV, ALLIANCE_SELF),
        raw(2, COMMAND_CENTER, ALLIANCE_SELF),
        raw(3, BARRACKS, ALLIANCE_SELF),
        raw(4, REFINERY, ALLIANCE_SELF),
        raw(5, LARVA, ALLIANCE_SELF),
        raw(6, PLACEHOLDER, ALLIANCE_SELF),
        raw(7, MARINE, ALLIANCE_SELF),
        raw(8, 4242, ALLIANCE_SELF),
        raw(9, MINERAL_FIELD, ALLIANCE_NEUTRAL),
    ];
    world.ingest(&snapshot(1, units, vec![]), &catalog());
    let mine = Partition::Mine;
    assert_eq!(world.select(mine, Group::All), vec![1, 2, 3, 4, 5, 6, 7, 8]);
    assert_eq!(world.select(mine, Group::Structures), vec![2, 3, 4]);
    assert_eq!(world.select(mine, Group::Townhalls), vec![2]);
    assert_eq!(world.select(mine, Group::GasBuildings), vec![4]);
    assert_eq!(world.select(mine, Group::Workers), vec![1]);
    assert_eq!(world.select(mine, Group::Larvae), vec![5]);
    assert_eq!(world.select(mine, Group::Placeholders), vec![6]);
    assert_eq!(world.select(mine, Group::Units), vec![1, 5, 7, 8]);
    assert_eq!(world.select(mine, Group::Resources), Vec::<u64>::new());
    assert_eq!(world.select(Partition::Neutral, Group::Resources), vec![9]);
}

#[test]
fn death_alert_gives_one_event_and_is_final() {
    let mut bot = Bot::new(catalog(), Race::Random);
    bot.update(&snapshot(1, vec![raw(1, MARINE, ALLIANCE_SELF), raw(2, ZERGLING, ALLIANCE_ENEMY)], vec![]));
    // Two notices for the same identity, which is also still reported.
    let events = bot.update(&snapshot(
        2,
        vec![raw(1, MARINE, ALLIANCE_SELF), raw(2, ZERGLING, ALLIANCE_ENEMY)],
        vec![Alert::UnitDied(2), Alert::Other(5), Alert::UnitDied(2)],
    ));
    assert_eq!(events, vec![Event::UnitDestroyed(2)]);
    assert!(!bot.world().contains(2));
    assert!(bot.world().is_destroyed(2));
    assert!(bot.world().contains(1));
    // The engine names it again, and alerts again: nothing comes of it.
    let events = bot.update(&snapshot(
        3,
        vec![raw(2, ZERGLING, ALLIANCE_ENEMY), raw(1, MARINE, ALLIANCE_SELF)],
        vec![Alert::UnitDied(2)],
    ));
    assert_eq!(events, vec![]);
    assert!(!bot.world().contains(2));
    assert_eq!(bot.world().len(), 1);
}

#[test]
fn death_notice_for_an_unknown_identity_is_an_event() {
    let mut bot = Bot::new(catalog(), Race::Random);
    let events = bot.update(&snapshot(1, vec![], vec![Alert::UnitDied(77)]));
    assert_eq!(events, vec![Event::UnitDestroyed(77)]);
    assert!(bot.world().is_destroyed(77));
}

#[test]
fn record_marked_dead_is_a_death_notice() {
    let mut bot = Bot::new(catalog(), Race::Random);
    bot.update(&snapshot(1, vec![raw(1, MARINE, ALLIANCE_SELF), raw(2, MARINE, ALLIANCE_SELF)], vec![]));
    let mut dying = raw(1, MARINE, ALLIANCE_SELF);
    dying.dead = true;
    let mut newborn = raw(3, MARINE, ALLIANCE_SELF);
    newborn.dead = true;
    let events = bot.update(&snapshot(
        2,
        vec![newborn, raw(2, MARINE, ALLIANCE_SELF), dying],
        vec![Alert::UnitDied(1)],
    ));
    // Alerts come before marked records; identity 1 is named by both.
    assert_eq!(events, vec![Event::UnitDestroyed(1), Event::UnitDestroyed(3)]);
    assert_eq!(bot.world().select(Partition::Mine, Group::All), vec![2]);
}

#[test]
fn opponent_that_leaves_vision_is_cached_as_last_known() {
    let mut world = World::new();
    let cat = catalog();
    let mut seen = raw(9, ZERGLING, ALLIANCE_ENEMY);
    seen.position = Point2 { x: 120, y: -7 };
    seen.health = 31;
    seen.orders = vec![Order { ability: 23, target: Target::Tag(1) }];
    seen.cloaked = true;
    world.ingest(&snapshot(5, vec![seen, raw(1, SCV, ALLIANCE_SELF)], vec![]), &cat);
    assert_eq!(world.partition(9), Some(Partition::EnemyVisible));

    let diff = world.ingest(&snapshot(6, vec![raw(1, SCV, ALLIANCE_SELF)], vec![]), &cat);
    assert!(diff.destroyed.is_empty());
    assert_eq!(world.partition(9), Some(Partition::EnemyCached));
    assert_eq!(world.select(Partition::EnemyCached, Group::All), vec![9]);
    assert_eq!(world.select(Partition::EnemyVisible, Group::All), Vec::<u64>::new());
    let e = world.get(9).unwrap();
    assert!(e.cached);
    assert_eq!(e.last_seen, 5);
    assert_eq!(e.position, Point2 { x: 120, y: -7 });
    assert_eq!(e.health, 31);
    assert_eq!(e.orders, vec![Order { ability: 23, target: Target::Tag(1) }]);
    assert!(e.cloaked);
    assert_eq!(e.unit_type, ZERGLING);
    assert_eq!(e.category, Category::Army);

    // Many steps later it is still there, unchanged.
    world.ingest(&snapshot(5 + RETENTION_HORIZON, vec![], vec![]), &cat);
    let e = world.get(9).unwrap();
    assert!(e.cached);
    assert_eq!(e.last_seen, 5);
    assert_eq!(e.health, 31);
}

#[test]
fn cached_opponent_comes_back_without_a_creation() {
    let mut bot = Bot::new(catalog(), Race::Random);
    bot.update(&snapshot(1, vec![raw(9, ZERGLING, ALLIANCE_ENEMY)], vec![]));
    bot.update(&snapshot(2, vec![], vec![]));
    let mut back = raw(9, ZERGLING, ALLIANCE_ENEMY);
    back.health = 3;
    let events = bot.update(&snapshot(3, vec![back], vec![]));
    assert_eq!(events, vec![]);
    let e = bot.world().get(9).unwrap();
    assert!(!e.cached);
    assert_eq!(e.health, 3);
    assert_eq!(e.last_seen, 3);
    assert_eq!(bot.world().partition(9), Some(Partition::EnemyVisible));
}

#[test]
fn cached_opponent_is_dropped_after_the_retention_horizon() {
    let mut bot = Bot::new(catalog(), Race::Random);
    bot.update(&snapshot(100, vec![raw(9, ZERGLING, ALLIANCE_ENEMY)], vec![]));
    bot.update(&snapshot(100 + RETENTION_HORIZON, vec![], vec![]));
    assert!(bot.world().contains(9));
    let events = bot.update(&snapshot(101 + RETENTION_HORIZON, vec![], vec![]));
    // Gone, but not known to be destroyed: no event, no grave.
    assert_eq!(events, vec![]);
    assert!(!bot.world().contains(9));
    assert!(!bot.world().is_destroyed(9));
    // Seen again later, it is a new identity to the world.
    let events = bot.update(&snapshot(102 + RETENTION_HORIZON, vec![raw(9, ZERGLING, ALLIANCE_ENEMY)], vec![]));
    assert_eq!(events, vec![Event::UnitCreated(9)]);
    assert_eq!(RETENTION_HORIZON, 1344);
}

#[test]
fn cached_opponent_is_destroyed_by_a_death_alert() {
    let mut bot = Bot::new(catalog(), Race::Random);
    bot.update(&snapshot(1, vec![raw(9, ZERGLING, ALLIANCE_ENEMY)], vec![]));
    bot.update(&snapshot(2, vec![], vec![]));
    let events = bot.update(&snapshot(3, vec![], vec![Alert::UnitDied(9)]));
    assert_eq!(events, vec![Event::UnitDestroyed(9)]);
    assert!(!bot.world().contains(9));
}

#[test]
fn step_that_runs_backwards_keeps_the_cache() {
    let mut world = World::new();
    let cat = catalog();
    world.ingest(&snapshot(5000, vec![raw(9, ZERGLING, ALLIANCE_ENEMY)], vec![]), &cat);
    world.ingest(&snapshot(3, vec![], vec![]), &cat);
    assert_eq!(world.partition(9), Some(Partition::EnemyCached));
    assert_eq!(world.step(), 3);
}

#[test]
fn own_and_neutral_units_that_go_missing_are_destroyed() {
    let mut bot = Bot::new(catalog(), Race::Random);
    bot.update(&snapshot(
        1,
        vec![
            raw(1, SCV, ALLIANCE_SELF),
            raw(2, MINERAL_FIELD, ALLIANCE_NEUTRAL),
            raw(3, ZERGLING, ALLIANCE_ENEMY),
            raw(4, MARINE, ALLIANCE_SELF),
        ],
        vec![],
    ));
    let events = bot.update(&snapshot(2, vec![raw(4, MARINE, ALLIANCE_SELF)], vec![]));
    assert_eq!(events, vec![Event::UnitDestroyed(1), Event::UnitDestroyed(2)]);
    assert!(!bot.world().contains(1));
    assert!(!bot.world().contains(2));
    assert_eq!(bot.world().partition(3), Some(Partition::EnemyCached));
    // Not known to be dead: an own unit that shows up again is new.
    assert!(!bot.world().is_destroyed(1));
    let events = bot.update(&snapshot(3, vec![raw(4, MARINE, ALLIANCE_SELF), raw(1, SCV, ALLIANCE_SELF)], vec![]));
    assert_eq!(events, vec![Event::UnitCreated(1)]);
}

#[test]
fn events_come_in_step_order_whatever_the_input_order() {
    let cat = || catalog();
    let first = || {
        vec![
            raw(1, PLACEHOLDER, ALLIANCE_SELF),
            building(2, BARRACKS, true),
            raw(3, MARINE, ALLIANCE_SELF),
            raw(4, ZERGLING, ALLIANCE_ENEMY),
        ]
    };
    let second = || {
        vec![
            building(1, BARRACKS, true),
            building(2, BARRACKS, false),
            raw(5, MARINE, ALLIANCE_SELF),
            raw(6, SCV, ALLIANCE_SELF),
            raw(4, ZERGLING, ALLIANCE_ENEMY),
        ]
    };
    let mut forward = Bot::new(cat(), Race::Random);
    forward.update(&snapshot(1, first(), vec![]));
    let mut snap = snapshot(2, second(), vec![Alert::UnitDied(4)]);
    snap.opponent_race = 2;
    let events = forward.update(&snap);
    assert_eq!(
        events,
        vec![
            Event::UnitDestroyed(4),
            Event::UnitDestroyed(3),
            Event::UnitCreated(5),
            Event::UnitCreated(6),
            Event::ConstructionStarted(1),
            Event::ConstructionComplete(2),
            Event::RandomRaceDetected(Race::Zerg),
        ]
    );

    let mut backward = Bot::new(cat(), Race::Random);
    backward.update(&snapshot(1, first(), vec![]));
    let mut units = second();
    units.reverse();
    let mut snap = snapshot(2, units, vec![Alert::UnitDied(4)]);
    snap.opponent_race = 2;
    let events = backward.update(&snap);
    assert_eq!(
        events,
        vec![
            Event::UnitDestroyed(4),
            Event::UnitDestroyed(3),
            Event::UnitCreated(6),
            Event::UnitCreated(5),
            Event::ConstructionComplete(2),
            Event::ConstructionStarted(1),
            Event::RandomRaceDetected(Race::Zerg),
        ]
    );
}

#[test]
fn derive_events_orders_the_groups() {
    let diff = Diff {
        destroyed: vec![9, 8],
        created: vec![1],
        construction: vec![Transition::Complete(4), Transition::Started(5)],
    };
    assert_eq!(
        derive_events(&diff, Some(Race::Protoss)),
        vec![
            Event::UnitDestroyed(9),
            Event::UnitDestroyed(8),
            Event::UnitCreated(1),
            Event::ConstructionComplete(4),
            Event::ConstructionStarted(5),
            Event::RandomRaceDetected(Race::Protoss),
        ]
    );
    let nothing = Diff { destroyed: vec![], created: vec![], construction: vec![] };
    assert_eq!(derive_events(&nothing, None), vec![]);
}

#[test]
fn race_is_revealed_once() {
    let mut bot = Bot::new(catalog(), Race::Random);
    let mut snap = snapshot(1, vec![], vec![]);
    snap.opponent_race = 4;
    assert_eq!(bot.update(&snap), vec![]);
    snap = snapshot(2, vec![], vec![]);
    snap.opponent_race = 0;
    assert_eq!(bot.update(&snap), vec![]);
    assert_eq!(bot.opponent_race(), Race::Random);
    snap = snapshot(3, vec![], vec![]);
    snap.opponent_race = 3;
    assert_eq!(bot.update(&snap), vec![Event::RandomRaceDetected(Race::Protoss)]);
    assert_eq!(bot.opponent_race(), Race::Protoss);
    snap = snapshot(4, vec![], vec![]);
    snap.opponent_race = 1;
    assert_eq!(bot.update(&snap), vec![]);
    assert_eq!(bot.opponent_race(), Race::Protoss);
}

#[test]
fn known_race_is_never_revealed() {
    assert_eq!(detect_race(Race::Terran, 2), None);
    assert_eq!(detect_race(Race::Random, 2), Some(Race::Zerg));
    assert_eq!(detect_race(Race::Random, 99), None);
    let mut bot = Bot::new(catalog(), Race::Zerg);
    let mut snap = snapshot(1, vec![], vec![]);
    snap.opponent_race = 2;
    assert_eq!(bot.update(&snap), vec![]);
}

#[test]
fn unknown_type_and_malformed_alliance_are_kept_unclassified() {
    let cat = catalog();
    let e = normalize(&raw(1, 31337, ALLIANCE_ENEMY), &cat, 4);
    assert_eq!(e.category, Category::Unclassified);
    assert_eq!(e.owner, Owner::Opponent);
    assert_eq!(e.unit_type, 31337);
    assert_eq!(e.last_seen, 4);
    assert!(!e.cached);

    let e = normalize(&raw(2, MARINE, 17), &cat, 4);
    assert_eq!(e.category, Category::Unclassified);
    assert_eq!(e.owner, Owner::Neutral);
    let e = normalize(&raw(2, MARINE, 0), &cat, 4);
    assert_eq!(e.category, Category::Unclassified);
    assert_eq!(e.owner, Owner::Neutral);

    let e = normalize(&raw(3, MARINE, ALLIANCE_ALLY), &cat, 4);
    assert_eq!(e.category, Category::Army);
    assert_eq!(e.owner, Owner::Neutral);

    let empty = Catalog::new();
    assert_eq!(empty.category_of(MARINE), Category::Unclassified);
    assert_eq!(cat.category_of(MARINE), Category::Army);
}

#[test]
fn normalize_carries_every_field() {
    let mut r = raw(12, SCV, ALLIANCE_SELF);
    r.position = Point2 { x: -3, y: 9 };
    r.health = 40;
    r.health_max = 45;
    r.shield = 2;
    r.orders = vec![
        Order { ability: 1, target: Target::Pos(Point2 { x: 1, y: 2 }) },
        Order { ability: 2, target: Target::Nothing },
    ];
    r.flying = true;
    let e = normalize(&r, &catalog(), 77);
    assert_eq!(e.tag, 12);
    assert_eq!(e.unit_type, SCV);
    assert_eq!(e.category, Category::Worker);
    assert_eq!(e.owner, Owner::Mine);
    assert_eq!(e.position, Point2 { x: -3, y: 9 });
    assert_eq!((e.health, e.health_max, e.shield), (40, 45, 2));
    assert_eq!(e.orders, r.orders);
    assert!(e.flying && !e.cloaked && !e.under_construction);
    assert_eq!(e.phase, Phase::Untracked);
    assert!(!e.is_idle());
    assert!(!e.is_structure());
    let copy = e.duplicate();
    assert_eq!(copy.orders, e.orders);
    assert_eq!(copy.tag, 12);
}

#[test]
fn first_record_of_an_identity_wins() {
    let mut world = World::new();
    let mut one = raw(1, MARINE, ALLIANCE_SELF);
    one.health = 10;
    let mut again = raw(1, SCV, ALLIANCE_SELF);
    again.health = 20;
    let diff = world.ingest(&snapshot(1, vec![one, again], vec![]), &catalog());
    assert_eq!(diff.created, vec![1]);
    assert_eq!(world.len(), 1);
    assert_eq!(world.get(1).unwrap().health, 10);
    assert_eq!(world.get(1).unwrap().unit_type, MARINE);
}

#[test]
fn count_in_flight_adds_existing_ordered_and_committed() {
    let mut bot = Bot::new(catalog(), Race::Random);
    let mut barracks = raw(10, BARRACKS, ALLIANCE_SELF);
    barracks.orders = vec![
        Order { ability: TRAIN_MARINE, target: Target::Nothing },
        Order { ability: TRAIN_MARINE, target: Target::Nothing },
    ];
    let mut enemy_barracks = raw(11, BARRACKS, ALLIANCE_ENEMY);
    enemy_barracks.orders = vec![Order { ability: TRAIN_MARINE, target: Target::Nothing }];
    let mut snap = snapshot(
        1,
        vec![
            raw(1, MARINE, ALLIANCE_SELF),
            raw(2, MARINE, ALLIANCE_SELF),
            raw(3, MARINE, ALLIANCE_ENEMY),
            barracks,
            enemy_barracks,
        ],
        vec![],
    );
    snap.resources = Resources { minerals: 500, vespene: 0, supply_used: 10, supply_cap: 15 };
    bot.update(&snap);
    assert_eq!(bot.count_in_flight(MARINE, TRAIN_MARINE), 4);
    assert!(bot.can_afford(Cost::new(50, 0, 1), true));
    bot.commit_for(MARINE, Cost::new(50, 0, 1));
    assert_eq!(bot.count_in_flight(MARINE, TRAIN_MARINE), 5);
    bot.commit(Cost::new(50, 0, 1));
    assert_eq!(bot.count_in_flight(MARINE, TRAIN_MARINE), 5);
    assert_eq!(bot.count_in_flight(BARRACKS, 0), 1);
    assert_eq!(bot.world().count_existing(MARINE), 2);
    assert_eq!(bot.world().count_ordered(TRAIN_MARINE), 2);
}

#[test]
fn map_features_are_kept_across_snapshots() {
    let mut bot = Bot::new(catalog(), Race::Random);
    assert!(bot.world().ramps().is_empty());
    assert!(bot.world().expansions().is_empty());
    bot.update(&snapshot(1, vec![raw(1, SCV, ALLIANCE_SELF)], vec![]));
    let ramps = vec![Point2 { x: 1, y: 2 }];
    let expansions = vec![Point2 { x: 3, y: 4 }, Point2 { x: 5, y: 6 }];
    bot.set_map(ramps.clone(), expansions.clone());
    assert!(bot.world().contains(1));
    bot.update(&snapshot(2, vec![], vec![]));
    assert_eq!(bot.world().ramps(), &ramps);
    assert_eq!(bot.world().expansions(), &expansions);
}

#[test]
fn bot_step_cycle() {
    let mut bot = Bot::new(catalog(), Race::Random);
    let mut snap = snapshot(1, vec![raw(1, SCV, ALLIANCE_SELF), raw(2, SCV, ALLIANCE_SELF)], vec![]);
    snap.resources = Resources { minerals: 150, vespene: 0, supply_used: 2, supply_cap: 15 };
    snap.score = 1234;
    let events = bot.update(&snap);
    assert_eq!(events, vec![Event::UnitCreated(1), Event::UnitCreated(2)]);
    assert_eq!(bot.score(), 1234);
    assert_eq!(bot.ledger().resources().minerals, 150);
    assert_eq!(bot.ledger().step(), 1);
    assert_eq!(bot.world().step(), 1);

    let barracks = Cost::new(150, 0, 0);
    assert!(bot.can_afford(barracks, false));
    bot.command(321, &vec![1], Target::Pos(Point2 { x: 30, y: 40 }));
    bot.commit_for(BARRACKS, barracks);
    assert!(!bot.can_afford(barracks, false));
    bot.command(16, &vec![2], Target::Tag(1));
    bot.command(321, &vec![2], Target::Pos(Point2 { x: 30, y: 40 }));

    let commands = bot.flush_actions();
    assert_eq!(commands.len(), 2);
    assert_eq!(commands[0].ability, 321);
    assert_eq!(commands[0].issuers, vec![1, 2]);
    assert_eq!(commands[1].ability, 16);
    assert_eq!(commands[1].issuers, vec![2]);
    assert!(bot.flush_actions().is_empty());

    // The next snapshot shows the minerals spent: the debit is settled.
    let mut snap = snapshot(2, vec![raw(1, SCV, ALLIANCE_SELF), raw(2, SCV, ALLIANCE_SELF)], vec![]);
    snap.resources = Resources { minerals: 0, vespene: 0, supply_used: 2, supply_cap: 15 };
    assert_eq!(bot.update(&snap), vec![]);
    assert!(bot.ledger().debits().is_empty());
    let mut snap = snapshot(3, vec![raw(1, SCV, ALLIANCE_SELF), raw(2, SCV, ALLIANCE_SELF)], vec![]);
    snap.resources = Resources { minerals: 5, vespene: 0, supply_used: 2, supply_cap: 15 };
    assert_eq!(bot.update(&snap), vec![]);
    assert!(bot.can_afford(Cost::new(5, 0, 0), false));
    assert!(!bot.can_afford(Cost::new(6, 0, 0), false));
}

#[test]
fn movement_short_of_the_cost_leaves_the_debit_to_expire() {
    let mut bot = Bot::new(catalog(), Race::Random);
    let mut snap = snapshot(1, vec![], vec![]);
    snap.resources = Resources { minerals: 150, vespene: 0, supply_used: 0, supply_cap: 0 };
    bot.update(&snap);
    bot.commit(Cost::new(150, 0, 0));
    // The minerals fell by 145 only: that does not account for 150.
    let mut snap = snapshot(2, vec![], vec![]);
    snap.resources = Resources { minerals: 5, vespene: 0, supply_used: 0, supply_cap: 0 };
    bot.update(&snap);
    assert_eq!(bot.ledger().debits().len(), 1);
    assert!(!bot.can_afford(Cost::new(1, 0, 0), false));
    let mut snap = snapshot(5, vec![], vec![]);
    snap.resources = Resources { minerals: 5, vespene: 0, supply_used: 0, supply_cap: 0 };
    bot.update(&snap);
    assert!(bot.ledger().debits().is_empty());
    assert!(bot.can_afford(Cost::new(5, 0, 0), false));
}
