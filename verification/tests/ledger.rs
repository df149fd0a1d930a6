use rust_sc2::ledger::{Cost, Debit, Ledger, Resources, CONFIRMATION_HORIZON};

fn report(minerals: u32, vespene: u32, supply_used: u32, supply_cap: u32) -> Resources {
    Resources { minerals, vespene, supply_used, supply_cap }
}

#[test]
fn new_ledger_is_empty() {
    let ledger = Ledger::new();
    assert_eq!(ledger.resources(), report(0, 0, 0, 0));
    assert_eq!(ledger.step(), 0);
    assert!(ledger.debits().is_empty());
    assert!(ledger.can_afford(Cost::new(0, 0, 0), true));
    assert!(!ledger.can_afford(Cost::new(1, 0, 0), false));
}

#[test]
fn committed_minerals_come_back_with_new_income() {
    let mut ledger = Ledger::new();
    ledger.reconcile(report(50, 0, 0, 0), 1);
    let cost = Cost::new(50, 0, 0);
    assert!(ledger.can_afford(cost, false));
    ledger.commit(cost);
    // The reported minerals are untouched, the debit is outstanding.
    assert_eq!(ledger.resources().minerals, 50);
    assert_eq!(ledger.debits().len(), 1);
    assert!(!ledger.can_afford(cost, false));

    ledger.reconcile(report(0, 0, 0, 0), 2);
    assert!(!ledger.can_afford(cost, false));

    ledger.reconcile(report(100, 0, 0, 0), 3);
    assert!(ledger.can_afford(cost, false));
    assert!(ledger.debits().is_empty());
}

#[test]
fn afford_commit_afford_needs_twice_the_cost() {
    let cost = Cost::new(100, 25, 0);

    let mut rich = Ledger::new();
    rich.reconcile(report(200, 50, 0, 0), 1);
    assert!(rich.can_afford(cost, false));
    rich.commit(cost);
    assert!(rich.can_afford(cost, false));
    rich.commit(cost);
    assert!(!rich.can_afford(cost, false));

    let mut short = Ledger::new();
    short.reconcile(report(199, 50, 0, 0), 1);
    assert!(short.can_afford(cost, false));
    short.commit(cost);
    assert!(!short.can_afford(cost, false));

    let mut gasless = Ledger::new();
    gasless.reconcile(report(1000, 49, 0, 0), 1);
    gasless.commit(cost);
    assert!(!gasless.can_afford(cost, false));
    assert!(gasless.can_afford(Cost::new(900, 24, 0), false));
    assert!(!gasless.can_afford(Cost::new(901, 24, 0), false));
}

#[test]
fn commit_records_step_and_deadline() {
    let mut ledger = Ledger::new();
    ledger.reconcile(report(400, 0, 0, 0), 7);
    ledger.commit_for(Some(21), Cost::new(150, 0, 0));
    assert_eq!(
        ledger.debits()[0],
        Debit {
            cost: Cost::new(150, 0, 0),
            unit_type: Some(21),
            applied_step: 7,
            deadline: 7 + CONFIRMATION_HORIZON as u64,
        }
    );
    assert_eq!(CONFIRMATION_HORIZON, 4);
}

#[test]
fn deadline_does_not_wrap_at_the_last_step() {
    let mut ledger = Ledger::new();
    ledger.reconcile(report(400, 0, 0, 0), u32::MAX);
    ledger.commit(Cost::new(150, 0, 0));
    assert_eq!(ledger.debits()[0].deadline, u32::MAX as u64 + 4);
    ledger.reconcile(report(400, 0, 0, 0), u32::MAX);
    assert_eq!(ledger.debits().len(), 1);
}

#[test]
fn unconfirmed_debit_expires_at_its_deadline() {
    let mut ledger = Ledger::new();
    ledger.reconcile(report(100, 0, 0, 0), 10);
    ledger.commit(Cost::new(75, 0, 0));
    // No movement: the debit stays until step 14.
    for step in 11..14 {
        ledger.reconcile(report(100, 0, 0, 0), step);
        assert_eq!(ledger.debits().len(), 1);
        assert!(!ledger.can_afford(Cost::new(26, 0, 0), false));
        assert!(ledger.can_afford(Cost::new(25, 0, 0), false));
    }
    ledger.reconcile(report(100, 0, 0, 0), 14);
    assert!(ledger.debits().is_empty());
    assert!(ledger.can_afford(Cost::new(100, 0, 0), false));
}

#[test]
fn late_report_prunes_every_overdue_debit() {
    let mut ledger = Ledger::new();
    ledger.reconcile(report(500, 500, 0, 0), 1);
    ledger.commit(Cost::new(100, 0, 0));
    ledger.commit(Cost::new(0, 100, 0));
    ledger.reconcile(report(500, 500, 0, 0), 2);
    ledger.commit(Cost::new(50, 50, 0));
    assert_eq!(ledger.debits().len(), 3);
    // Step 5 is the deadline of the first two debits, not of the third.
    ledger.reconcile(report(500, 500, 0, 0), 5);
    assert_eq!(ledger.debits().len(), 1);
    assert_eq!(ledger.debits()[0].cost, Cost::new(50, 50, 0));
    ledger.reconcile(report(500, 500, 0, 0), 1000);
    assert!(ledger.debits().is_empty());
}

#[test]
fn movement_confirms_oldest_debit_first() {
    let mut ledger = Ledger::new();
    ledger.reconcile(report(300, 0, 0, 0), 1);
    ledger.commit(Cost::new(100, 0, 0));
    ledger.commit(Cost::new(150, 0, 0));
    ledger.commit(Cost::new(50, 0, 0));
    // The minerals fell by 160: that covers the first debit (100), not the
    // second (150 > 60), and then the third (50 <= 60).
    ledger.reconcile(report(140, 0, 0, 0), 2);
    assert_eq!(ledger.debits().len(), 1);
    assert_eq!(ledger.debits()[0].cost, Cost::new(150, 0, 0));
    assert!(!ledger.can_afford(Cost::new(1, 0, 0), false));
}

#[test]
fn rising_minerals_confirm_nothing() {
    let mut ledger = Ledger::new();
    ledger.reconcile(report(100, 0, 0, 0), 1);
    ledger.commit(Cost::new(60, 0, 0));
    ledger.reconcile(report(120, 0, 0, 0), 2);
    assert_eq!(ledger.debits().len(), 1);
    assert!(ledger.can_afford(Cost::new(60, 0, 0), false));
    assert!(!ledger.can_afford(Cost::new(61, 0, 0), false));
}

#[test]
fn supply_is_checked_only_on_request() {
    let mut ledger = Ledger::new();
    ledger.reconcile(report(1000, 0, 14, 15), 1);
    let marine = Cost::new(50, 0, 1);
    assert!(ledger.can_afford(marine, true));
    ledger.commit(marine);
    assert!(!ledger.can_afford(marine, true));
    assert!(ledger.can_afford(marine, false));
    // Used supply went up by one: the debit is confirmed.
    ledger.reconcile(report(950, 0, 15, 15), 2);
    assert!(ledger.debits().is_empty());
    assert!(!ledger.can_afford(marine, true));
}

#[test]
fn supply_over_cap_affords_nothing_with_supply() {
    let mut ledger = Ledger::new();
    ledger.reconcile(report(1000, 0, 20, 15), 1);
    assert!(!ledger.can_afford(Cost::new(0, 0, 0), true));
    assert!(ledger.can_afford(Cost::new(0, 0, 0), false));
}

#[test]
fn negative_cost_is_never_affordable_and_never_recorded() {
    let mut ledger = Ledger::new();
    ledger.reconcile(report(1000, 1000, 0, 200), 1);
    for cost in [Cost::new(-1, 0, 0), Cost::new(0, -1, 0), Cost::new(0, 0, -1), Cost::new(i32::MIN, 5, 5)] {
        assert!(!cost.is_valid());
        assert!(!ledger.can_afford(cost, false));
        assert!(!ledger.can_afford(cost, true));
        ledger.commit(cost);
        assert!(ledger.debits().is_empty());
    }
    assert!(Cost::new(0, 0, 0).is_valid());
}

#[test]
fn largest_costs_do_not_overflow() {
    let mut ledger = Ledger::new();
    ledger.reconcile(report(u32::MAX, u32::MAX, 0, u32::MAX), 1);
    let huge = Cost::new(i32::MAX, i32::MAX, i32::MAX);
    ledger.commit(huge);
    ledger.commit(huge);
    // 2 * (2^31 - 1) = 2^32 - 2, so one is left of 2^32 - 1.
    assert!(ledger.can_afford(Cost::new(1, 1, 1), true));
    assert!(!ledger.can_afford(Cost::new(2, 1, 1), true));
    ledger.commit(huge);
    assert!(!ledger.can_afford(Cost::new(0, 0, 0), false));
}

#[test]
fn pending_count_counts_debits_by_type() {
    let mut ledger = Ledger::new();
    ledger.reconcile(report(1000, 0, 0, 0), 1);
    ledger.commit_for(Some(48), Cost::new(50, 0, 0));
    ledger.commit_for(Some(48), Cost::new(50, 0, 0));
    ledger.commit_for(Some(21), Cost::new(150, 0, 0));
    ledger.commit(Cost::new(10, 0, 0));
    assert_eq!(ledger.pending_count(48), 2);
    assert_eq!(ledger.pending_count(21), 1);
    assert_eq!(ledger.pending_count(0), 0);
}
