use rust_sc2::action::{Batcher, Command};
use rust_sc2::unit::{Point2, Target};

const MOVE: u32 = 16;
const ATTACK: u32 = 23;

fn summary(commands: &[Command]) -> Vec<(u32, Target, Vec<u64>)> {
    commands.iter().map(|c| (c.ability, c.target, c.issuers.clone())).collect()
}

#[test]
fn requests_with_same_ability_and_target_are_merged() {
    let mut batcher = Batcher::new();
    let rally = Target::Pos(Point2 { x: 10, y: 20 });
    batcher.issue(MOVE, &vec![1], rally);
    batcher.issue(MOVE, &vec![2, 3], rally);
    assert_eq!(batcher.len(), 1);
    let commands = batcher.flush();
    assert_eq!(summary(&commands), vec![(MOVE, rally, vec![1, 2, 3])]);
}

#[test]
fn different_targets_or_abilities_are_kept_apart_in_first_seen_order() {
    let mut batcher = Batcher::new();
    let a = Target::Pos(Point2 { x: 1, y: 1 });
    let b = Target::Pos(Point2 { x: 2, y: 2 });
    batcher.issue(ATTACK, &vec![5], Target::Tag(99));
    batcher.issue(MOVE, &vec![6], a);
    batcher.issue(MOVE, &vec![7], b);
    batcher.issue(ATTACK, &vec![8], Target::Tag(99));
    batcher.issue(ATTACK, &vec![9], Target::Tag(98));
    batcher.issue(MOVE, &vec![10], a);
    batcher.issue(MOVE, &vec![11], Target::Nothing);
    let commands = batcher.flush();
    assert_eq!(
        summary(&commands),
        vec![
            (ATTACK, Target::Tag(99), vec![5, 8]),
            (MOVE, a, vec![6, 10]),
            (MOVE, b, vec![7]),
            (ATTACK, Target::Tag(98), vec![9]),
            (MOVE, Target::Nothing, vec![11]),
        ]
    );
}

#[test]
fn a_unit_is_named_once_per_command() {
    let mut batcher = Batcher::new();
    batcher.issue(ATTACK, &vec![4, 4, 5], Target::Tag(1));
    batcher.issue(ATTACK, &vec![5, 6, 4], Target::Tag(1));
    batcher.issue_one(ATTACK, 6, Target::Tag(1));
    let commands = batcher.flush();
    assert_eq!(summary(&commands), vec![(ATTACK, Target::Tag(1), vec![4, 5, 6])]);
}

#[test]
fn a_request_without_units_adds_nothing() {
    let mut batcher = Batcher::new();
    batcher.issue(MOVE, &vec![], Target::Nothing);
    assert_eq!(batcher.len(), 0);
    assert!(batcher.flush().is_empty());
}

#[test]
fn flush_starts_over() {
    let mut batcher = Batcher::new();
    batcher.issue(MOVE, &vec![1], Target::Nothing);
    assert_eq!(batcher.flush().len(), 1);
    assert_eq!(batcher.len(), 0);
    assert!(batcher.flush().is_empty());
    batcher.issue(MOVE, &vec![2], Target::Nothing);
    let commands = batcher.flush();
    assert_eq!(summary(&commands), vec![(MOVE, Target::Nothing, vec![2])]);
}

#[test]
fn batching_keeps_the_set_of_orders() {
    let requests: Vec<(u32, Vec<u64>, Target)> = vec![
        (MOVE, vec![1, 2], Target::Tag(7)),
        (ATTACK, vec![2, 3], Target::Tag(7)),
        (MOVE, vec![3, 1], Target::Tag(7)),
        (MOVE, vec![1], Target::Tag(8)),
        (ATTACK, vec![3], Target::Tag(7)),
    ];
    let mut batcher = Batcher::new();
    let mut asked: Vec<(u32, Target, u64)> = Vec::new();
    for (ability, issuers, target) in &requests {
        batcher.issue(*ability, issuers, *target);
        for issuer in issuers {
            if !asked.contains(&(*ability, *target, *issuer)) {
                asked.push((*ability, *target, *issuer));
            }
        }
    }
    let commands = batcher.flush();
    let mut given: Vec<(u32, Target, u64)> = Vec::new();
    for c in &commands {
        for issuer in &c.issuers {
            // No order is given twice.
            assert!(!given.contains(&(c.ability, c.target, *issuer)));
            given.push((c.ability, c.target, *issuer));
        }
    }
    assert_eq!(given.len(), asked.len());
    for order in &asked {
        assert!(given.contains(order));
    }
    assert_eq!(commands.len(), 3);
}
