//! The speculative resource ledger.
//!
//! An order that the agent gives in one step changes nothing in the engine's
//! numbers until a later step. The ledger keeps the numbers that the engine
//! reported last, and beside them the debits that the agent has committed and
//! the engine has not yet confirmed. What the agent may still spend is the
//! reported amount less the outstanding debits.
//!
//! A debit leaves the ledger in one of two ways, both in [`Ledger::reconcile`]:
//! the reported numbers moved by at least its cost (it is confirmed, and the
//! reported numbers now speak for it), or its deadline has come (the order is
//! taken to have failed).

use vstd::prelude::*;

verus! {

/// The number of steps after which an unconfirmed debit is given up.
pub const CONFIRMATION_HORIZON: u32 = 4;

/// What an action takes: minerals, vespene and supply.
#[derive(Debug, Copy, Clone, PartialEq, Eq, Structural)]
pub struct Cost {
    pub minerals: i32,
    pub vespene: i32,
    pub supply: i32,
}

impl Cost {
    /// A cost is valid when none of its parts is negative.
    pub open spec fn valid(self) -> bool {
        0 <= self.minerals && 0 <= self.vespene && 0 <= self.supply
    }

    pub fn new(minerals: i32, vespene: i32, supply: i32) -> (c: Cost)
        ensures
            c == (Cost { minerals, vespene, supply }),
    {
        Cost { minerals, vespene, supply }
    }

    pub fn is_valid(&self) -> (b: bool)
        ensures
            b == self.valid(),
    {
        0 <= self.minerals && 0 <= self.vespene && 0 <= self.supply
    }
}

/// The numbers that the engine reports for the agent in one snapshot.
#[derive(Debug, Copy, Clone, PartialEq, Eq, Structural)]
pub struct Resources {
    pub minerals: u32,
    pub vespene: u32,
    pub supply_used: u32,
    pub supply_cap: u32,
}

/// A cost that the agent has committed and the engine has not confirmed.
#[derive(Debug, Copy, Clone, PartialEq, Eq, Structural)]
pub struct Debit {
    /// What the action takes.
    pub cost: Cost,
    /// The unit type that the action produces, where the agent named one.
    pub unit_type: Option<u32>,
    /// The step in which the debit was committed.
    pub applied_step: u32,
    /// The step by which the engine's numbers are expected to show it.
    pub deadline: u64,
}

/// How far the reported numbers moved between two snapshots, in the direction
/// in which spending moves them: minerals and vespene down, used supply up.
pub struct Movement {
    pub minerals: int,
    pub vespene: int,
    pub supply: int,
}

impl Movement {
    /// The movement from one report to the next. A number that moved the
    /// other way counts as not moved.
    pub open spec fn between(before: Resources, after: Resources) -> Movement {
        Movement {
            minerals: if after.minerals < before.minerals {
                before.minerals - after.minerals
            } else {
                0
            },
            vespene: if after.vespene < before.vespene {
                before.vespene - after.vespene
            } else {
                0
            },
            supply: if before.supply_used < after.supply_used {
                after.supply_used - before.supply_used
            } else {
                0
            },
        }
    }

    /// Whether the movement is large enough to account for a cost.
    pub open spec fn covers(self, cost: Cost) -> bool {
        cost.minerals <= self.minerals && cost.vespene <= self.vespene && cost.supply
            <= self.supply
    }

    /// What is left of the movement once a cost is accounted for.
    pub open spec fn less(self, cost: Cost) -> Movement {
        Movement {
            minerals: self.minerals - cost.minerals,
            vespene: self.vespene - cost.vespene,
            supply: self.supply - cost.supply,
        }
    }
}

/// The minerals of all debits of a sequence together.
pub open spec fn total_minerals(debits: Seq<Debit>) -> int
    decreases debits.len(),
{
    if debits.len() == 0 {
        0
    } else {
        total_minerals(debits.drop_last()) + debits.last().cost.minerals
    }
}

/// The vespene of all debits of a sequence together.
pub open spec fn total_vespene(debits: Seq<Debit>) -> int
    decreases debits.len(),
{
    if debits.len() == 0 {
        0
    } else {
        total_vespene(debits.drop_last()) + debits.last().cost.vespene
    }
}

/// The supply of all debits of a sequence together.
pub open spec fn total_supply(debits: Seq<Debit>) -> int
    decreases debits.len(),
{
    if debits.len() == 0 {
        0
    } else {
        total_supply(debits.drop_last()) + debits.last().cost.supply
    }
}

/// The debits that stay outstanding when the reported numbers have moved by
/// `moved` and the step is `step`. The debits are taken oldest first. One
/// that the movement covers is confirmed: it leaves, and takes its cost out
/// of the movement. One that is not covered leaves when its deadline has
/// come, and stays otherwise.
pub open spec fn settle(debits: Seq<Debit>, moved: Movement, step: u32) -> Seq<Debit>
    decreases debits.len(),
{
    if debits.len() == 0 {
        Seq::empty()
    } else {
        let d = debits.first();
        let rest = debits.drop_first();
        if moved.covers(d.cost) {
            settle(rest, moved.less(d.cost), step)
        } else if step >= d.deadline {
            settle(rest, moved, step)
        } else {
            seq![d] + settle(rest, moved, step)
        }
    }
}

/// The number of debits of a sequence that were committed for a unit type.
pub open spec fn count_for(debits: Seq<Debit>, unit_type: u32) -> nat
    decreases debits.len(),
{
    if debits.len() == 0 {
        0
    } else {
        count_for(debits.drop_last(), unit_type) + if debits.last().unit_type == Some(unit_type) {
            1nat
        } else {
            0nat
        }
    }
}

/// What a [`Ledger`] holds: the last report, its step, and the outstanding
/// debits, oldest first.
pub struct LedgerView {
    pub resources: Resources,
    pub step: u32,
    pub debits: Seq<Debit>,
}

impl LedgerView {
    /// The ledger at the start of a game: nothing reported, nothing
    /// committed, step 0.
    pub open spec fn empty() -> LedgerView {
        LedgerView {
            resources: Resources { minerals: 0, vespene: 0, supply_used: 0, supply_cap: 0 },
            step: 0,
            debits: Seq::empty(),
        }
    }

    /// The minerals that are not spoken for.
    pub open spec fn available_minerals(self) -> int {
        self.resources.minerals - total_minerals(self.debits)
    }

    /// The vespene that is not spoken for.
    pub open spec fn available_vespene(self) -> int {
        self.resources.vespene - total_vespene(self.debits)
    }

    /// The supply that is neither used nor spoken for.
    pub open spec fn available_supply(self) -> int {
        self.resources.supply_cap - self.resources.supply_used - total_supply(self.debits)
    }

    /// Whether a cost can be paid out of what is not spoken for. Supply is
    /// looked at only when `reserve_supply` is set. A cost with a negative
    /// part cannot be afforded.
    pub open spec fn can_afford(self, cost: Cost, reserve_supply: bool) -> bool {
        &&& cost.valid()
        &&& cost.minerals <= self.available_minerals()
        &&& cost.vespene <= self.available_vespene()
        &&& reserve_supply ==> cost.supply <= self.available_supply()
    }

    /// The debit that a commit in this state records.
    pub open spec fn debit_for(self, unit_type: Option<u32>, cost: Cost) -> Debit {
        Debit {
            cost,
            unit_type,
            applied_step: self.step,
            deadline: (self.step + CONFIRMATION_HORIZON) as u64,
        }
    }

    /// The ledger after a commit. A cost with a negative part records nothing.
    pub open spec fn commit_for(self, unit_type: Option<u32>, cost: Cost) -> LedgerView {
        if cost.valid() {
            LedgerView { debits: self.debits.push(self.debit_for(unit_type, cost)), ..self }
        } else {
            self
        }
    }

    /// The ledger after a commit that names no unit type.
    pub open spec fn commit(self, cost: Cost) -> LedgerView {
        self.commit_for(None, cost)
    }

    /// The ledger after one commit for each cost of a sequence, in order.
    pub open spec fn commit_all(self, costs: Seq<Cost>) -> LedgerView
        decreases costs.len(),
    {
        if costs.len() == 0 {
            self
        } else {
            self.commit_all(costs.drop_last()).commit(costs.last())
        }
    }

    /// The ledger after a new report: the report replaces the numbers, and
    /// the debits are settled against the movement between the two reports.
    pub open spec fn reconcile(self, resources: Resources, step: u32) -> LedgerView {
        LedgerView {
            resources,
            step,
            debits: settle(self.debits, Movement::between(self.resources, resources), step),
        }
    }
}

/// The minerals of the costs of a sequence together.
pub open spec fn sum_minerals(costs: Seq<Cost>) -> int
    decreases costs.len(),
{
    if costs.len() == 0 {
        0
    } else {
        sum_minerals(costs.drop_last()) + costs.last().minerals
    }
}

/// The vespene of the costs of a sequence together.
pub open spec fn sum_vespene(costs: Seq<Cost>) -> int
    decreases costs.len(),
{
    if costs.len() == 0 {
        0
    } else {
        sum_vespene(costs.drop_last()) + costs.last().vespene
    }
}

/// The supply of the costs of a sequence together.
pub open spec fn sum_supply(costs: Seq<Cost>) -> int
    decreases costs.len(),
{
    if costs.len() == 0 {
        0
    } else {
        sum_supply(costs.drop_last()) + costs.last().supply
    }
}

/// Whether every debit of a sequence has a valid cost.
pub open spec fn all_valid(debits: Seq<Debit>) -> bool {
    forall|i: int| 0 <= i < debits.len() ==> (#[trigger] debits[i]).cost.valid()
}

/// The resource ledger: the engine's last report and the debits that the
/// agent has committed since.
pub struct Ledger {
    resources: Resources,
    step: u32,
    debits: Vec<Debit>,
    pending_minerals: u128,
    pending_vespene: u128,
    pending_supply: u128,
}

impl View for Ledger {
    type V = LedgerView;

    closed spec fn view(&self) -> LedgerView {
        LedgerView { resources: self.resources, step: self.step, debits: self.debits@ }
    }
}

proof fn lemma_totals_bounded(debits: Seq<Debit>)
    requires
        all_valid(debits),
    ensures
        0 <= total_minerals(debits) <= debits.len() * 0x7fff_ffff,
        0 <= total_vespene(debits) <= debits.len() * 0x7fff_ffff,
        0 <= total_supply(debits) <= debits.len() * 0x7fff_ffff,
    decreases debits.len(),
{
    if debits.len() > 0 {
        lemma_totals_bounded(debits.drop_last());
        assert(debits.last() == debits[debits.len() - 1]);
    }
}

impl Ledger {
    /// The invariant of a ledger: every debit has a valid cost, and the
    /// running totals are the sums over the debits.
    pub closed spec fn wf(&self) -> bool {
        &&& all_valid(self.debits@)
        &&& self.pending_minerals == total_minerals(self.debits@)
        &&& self.pending_vespene == total_vespene(self.debits@)
        &&& self.pending_supply == total_supply(self.debits@)
    }

    /// A ledger with nothing reported and nothing committed, at step 0.
    pub fn new() -> (l: Ledger)
        ensures
            l.wf(),
            l@ == LedgerView::empty(),
    {
        Ledger {
            resources: Resources { minerals: 0, vespene: 0, supply_used: 0, supply_cap: 0 },
            step: 0,
            debits: Vec::new(),
            pending_minerals: 0,
            pending_vespene: 0,
            pending_supply: 0,
        }
    }

    /// The numbers that the engine reported last.
    pub fn resources(&self) -> (r: Resources)
        ensures
            r == self@.resources,
    {
        self.resources
    }

    /// The step of the last report.
    pub fn step(&self) -> (s: u32)
        ensures
            s == self@.step,
    {
        self.step
    }

    /// The outstanding debits, oldest first.
    pub fn debits(&self) -> (d: &Vec<Debit>)
        ensures
            d@ == self@.debits,
    {
        &self.debits
    }

    /// Whether the agent can pay `cost` out of what the engine reported less
    /// what is already committed. Supply is checked only when
    /// `reserve_supply` is set.
    pub fn can_afford(&self, cost: Cost, reserve_supply: bool) -> (ok: bool)
        requires
            self.wf(),
        ensures
            ok == self@.can_afford(cost, reserve_supply),
    {
        if cost.minerals < 0 || cost.vespene < 0 || cost.supply < 0 {
            return false;
        }
        let n = self.debits.len();
        proof {
            lemma_totals_bounded(self.debits@);
            assert(n * 0x7fff_ffff <= 0xffff_ffff_ffff_ffff * 0x7fff_ffff);
        }
        let minerals_ok = self.pending_minerals + (cost.minerals as u128)
            <= self.resources.minerals as u128;
        let vespene_ok = self.pending_vespene + (cost.vespene as u128)
            <= self.resources.vespene as u128;
        let supply_ok = !reserve_supply || self.pending_supply + (cost.supply as u128)
            + (self.resources.supply_used as u128) <= self.resources.supply_cap as u128;
        minerals_ok && vespene_ok && supply_ok
    }

    /// Records a debit for an action that the agent has just issued. The
    /// reported numbers stay as they are. A cost with a negative part is
    /// not recorded.
    pub fn commit(&mut self, cost: Cost)
        requires
            old(self).wf(),
        ensures
            final(self).wf(),
            final(self)@ == old(self)@.commit(cost),
    {
        self.commit_for(None, cost)
    }

    /// As [`Ledger::commit`], and notes the unit type that the action
    /// produces, so that the debit counts as one unit of that type in flight.
    pub fn commit_for(&mut self, unit_type: Option<u32>, cost: Cost)
        requires
            old(self).wf(),
        ensures
            final(self).wf(),
            final(self)@ == old(self)@.commit_for(unit_type, cost),
    {
        if cost.minerals < 0 || cost.vespene < 0 || cost.supply < 0 {
            return ;
        }
        let n = self.debits.len();
        proof {
            lemma_totals_bounded(self.debits@);
            assert(n * 0x7fff_ffff <= 0xffff_ffff_ffff_ffff * 0x7fff_ffff);
        }
        let debit = Debit {
            cost,
            unit_type,
            applied_step: self.step,
            deadline: self.step as u64 + CONFIRMATION_HORIZON as u64,
        };
        self.debits.push(debit);
        self.pending_minerals = self.pending_minerals + cost.minerals as u128;
        self.pending_vespene = self.pending_vespene + cost.vespene as u128;
        self.pending_supply = self.pending_supply + cost.supply as u128;
        proof {
            assert(self.debits@.drop_last() == old(self).debits@);
        }
    }

    /// Takes in the engine's report for a new step. The reported numbers
    /// replace the old ones. Each outstanding debit, oldest first, is
    /// confirmed if the numbers moved by at least its cost, given up if its
    /// deadline has come, and kept otherwise.
    pub fn reconcile(&mut self, resources: Resources, step: u32)
        requires
            old(self).wf(),
        ensures
            final(self).wf(),
            final(self)@ == old(self)@.reconcile(resources, step),
            forall|i: int|
                0 <= i < final(self)@.debits.len() ==> step < (
                #[trigger] final(self)@.debits[i]).deadline,
    {
        let before = self.resources;
        let mut minerals: u32 = if resources.minerals < before.minerals {
            before.minerals - resources.minerals
        } else {
            0
        };
        let mut vespene: u32 = if resources.vespene < before.vespene {
            before.vespene - resources.vespene
        } else {
            0
        };
        let mut supply: u32 = if before.supply_used < resources.supply_used {
            resources.supply_used - before.supply_used
        } else {
            0
        };
        let ghost moved = Movement::between(before, resources);
        let mut kept: Vec<Debit> = Vec::new();
        let mut pending_minerals: u128 = 0;
        let mut pending_vespene: u128 = 0;
        let mut pending_supply: u128 = 0;
        let n = self.debits.len();
        let mut i: usize = 0;
        proof {
            assert(self.debits@.skip(0) == self.debits@);
            assert(moved == (Movement {
                minerals: minerals as int,
                vespene: vespene as int,
                supply: supply as int,
            }));
            assert(Seq::<Debit>::empty() + settle(self.debits@, moved, step) == settle(
                self.debits@,
                moved,
                step,
            ));
        }
        while i < n
            invariant
                i <= n,
                n == self.debits@.len(),
                self.debits@ == old(self).debits@,
                all_valid(self.debits@),
                all_valid(kept@),
                kept@.len() <= i,
                pending_minerals == total_minerals(kept@),
                pending_vespene == total_vespene(kept@),
                pending_supply == total_supply(kept@),
                forall|j: int| 0 <= j < kept@.len() ==> step < (#[trigger] kept@[j]).deadline,
                settle(old(self).debits@, moved, step) == kept@ + settle(
                    self.debits@.skip(i as int),
                    Movement { minerals: minerals as int, vespene: vespene as int, supply: supply as int },
                    step,
                ),
            decreases n - i,
        {
            let d = self.debits[i];
            proof {
                let rest = self.debits@.skip(i as int);
                assert(rest.first() == d);
                assert(rest.drop_first() == self.debits@.skip(i + 1));
                lemma_totals_bounded(kept@);
                assert(kept@.len() * 0x7fff_ffff <= 0xffff_ffff_ffff_ffff * 0x7fff_ffff);
            }
            if d.cost.minerals as i64 <= minerals as i64 && d.cost.vespene as i64 <= vespene as i64
                && d.cost.supply as i64 <= supply as i64 {
                minerals = minerals - d.cost.minerals as u32;
                vespene = vespene - d.cost.vespene as u32;
                supply = supply - d.cost.supply as u32;
            } else if step as u64 >= d.deadline {
            } else {
                let ghost before_push = kept@;
                kept.push(d);
                pending_minerals = pending_minerals + d.cost.minerals as u128;
                pending_vespene = pending_vespene + d.cost.vespene as u128;
                pending_supply = pending_supply + d.cost.supply as u128;
                proof {
                    assert(kept@.drop_last() == before_push);
                    assert(kept@ + settle(
                        self.debits@.skip(i + 1),
                        Movement {
                            minerals: minerals as int,
                            vespene: vespene as int,
                            supply: supply as int,
                        },
                        step,
                    ) == before_push + (seq![d] + settle(
                        self.debits@.skip(i + 1),
                        Movement {
                            minerals: minerals as int,
                            vespene: vespene as int,
                            supply: supply as int,
                        },
                        step,
                    )));
                }
            }
            i = i + 1;
        }
        proof {
            assert(self.debits@.skip(n as int) == Seq::<Debit>::empty());
            assert(kept@ + Seq::<Debit>::empty() == kept@);
        }
        self.resources = resources;
        self.step = step;
        self.debits = kept;
        self.pending_minerals = pending_minerals;
        self.pending_vespene = pending_vespene;
        self.pending_supply = pending_supply;
    }

    /// The number of outstanding debits that were committed for a unit type.
    pub fn pending_count(&self, unit_type: u32) -> (n: usize)
        ensures
            n == count_for(self@.debits, unit_type),
    {
        let mut n: usize = 0;
        let len = self.debits.len();
        let mut i: usize = 0;
        while i < len
            invariant
                i <= len,
                len == self.debits@.len(),
                n <= i,
                n == count_for(self.debits@.take(i as int), unit_type),
            decreases len - i,
        {
            proof {
                assert(self.debits@.take(i + 1).drop_last() == self.debits@.take(i as int));
            }
            let hit = match self.debits[i].unit_type {
                Some(t) => t == unit_type,
                None => false,
            };
            if hit {
                n = n + 1;
            }
            i = i + 1;
        }
        proof {
            assert(self.debits@.take(len as int) == self.debits@);
        }
        n
    }
}

/// Whether every cost of a sequence is valid.
pub open spec fn all_costs_valid(costs: Seq<Cost>) -> bool {
    forall|i: int| 0 <= i < costs.len() ==> (#[trigger] costs[i]).valid()
}

/// A commit of a valid cost takes exactly that cost out of what is
/// available, and leaves the reported numbers and the step as they are.
pub proof fn lemma_commit_takes_cost(l: LedgerView, unit_type: Option<u32>, cost: Cost)
    requires
        cost.valid(),
    ensures
        l.commit_for(unit_type, cost).resources == l.resources,
        l.commit_for(unit_type, cost).step == l.step,
        l.commit_for(unit_type, cost).available_minerals() == l.available_minerals()
            - cost.minerals,
        l.commit_for(unit_type, cost).available_vespene() == l.available_vespene() - cost.vespene,
        l.commit_for(unit_type, cost).available_supply() == l.available_supply() - cost.supply,
{
    let d = l.debit_for(unit_type, cost);
    assert(l.debits.push(d).drop_last() == l.debits);
}

/// After a run of commits with no report between them, a cost can be
/// afforded exactly when it fits into what was available before the run less
/// everything that the run committed.
pub proof fn lemma_commits_accumulate(l: LedgerView, costs: Seq<Cost>)
    requires
        all_costs_valid(costs),
    ensures
        l.commit_all(costs).resources == l.resources,
        l.commit_all(costs).step == l.step,
        l.commit_all(costs).available_minerals() == l.available_minerals() - sum_minerals(costs),
        l.commit_all(costs).available_vespene() == l.available_vespene() - sum_vespene(costs),
        l.commit_all(costs).available_supply() == l.available_supply() - sum_supply(costs),
    decreases costs.len(),
{
    if costs.len() > 0 {
        lemma_commits_accumulate(l, costs.drop_last());
        lemma_commit_takes_cost(l.commit_all(costs.drop_last()), None, costs.last());
    }
}

/// A cost that was affordable stops being affordable once the commits made
/// since, together with the cost itself, exceed what was available: with
/// `costs` committed, `cost` can be afforded if and only if it is valid and
/// the sum of `costs` and `cost` stays within what was available before.
pub proof fn lemma_afford_after_commits(
    l: LedgerView,
    costs: Seq<Cost>,
    cost: Cost,
    reserve_supply: bool,
)
    requires
        all_costs_valid(costs),
    ensures
        l.commit_all(costs).can_afford(cost, reserve_supply) <==> {
            &&& cost.valid()
            &&& sum_minerals(costs) + cost.minerals <= l.available_minerals()
            &&& sum_vespene(costs) + cost.vespene <= l.available_vespene()
            &&& reserve_supply ==> sum_supply(costs) + cost.supply <= l.available_supply()
        },
{
    lemma_commits_accumulate(l, costs);
}

/// Asking, committing and asking again for the same cost: the second answer
/// is yes exactly when twice the cost fits into what was available.
pub proof fn lemma_afford_commit_afford(l: LedgerView, cost: Cost, reserve_supply: bool)
    requires
        cost.valid(),
    ensures
        l.commit(cost).can_afford(cost, reserve_supply) <==> {
            &&& 2 * cost.minerals <= l.available_minerals()
            &&& 2 * cost.vespene <= l.available_vespene()
            &&& reserve_supply ==> 2 * cost.supply <= l.available_supply()
        },
{
    lemma_commit_takes_cost(l, None, cost);
}

/// Every debit that a settlement leaves outstanding was outstanding before,
/// and has its deadline still ahead.
pub proof fn lemma_settle_keeps_live_debits(debits: Seq<Debit>, moved: Movement, step: u32)
    ensures
        settle(debits, moved, step).len() <= debits.len(),
        forall|i: int|
            0 <= i < settle(debits, moved, step).len() ==> {
                &&& debits.contains(#[trigger] settle(debits, moved, step)[i])
                &&& step < settle(debits, moved, step)[i].deadline
            },
    decreases debits.len(),
{
    if debits.len() > 0 {
        let d = debits.first();
        let rest = debits.drop_first();
        let out = settle(debits, moved, step);
        lemma_settle_keeps_live_debits(rest, moved, step);
        lemma_settle_keeps_live_debits(rest, moved.less(d.cost), step);
        assert forall|i: int| 0 <= i < out.len() implies debits.contains(#[trigger] out[i]) && step
            < out[i].deadline by {
            if moved.covers(d.cost) || step >= d.deadline {
                let j = choose|j: int| 0 <= j < rest.len() && rest[j] == out[i];
                assert(debits[j + 1] == out[i]);
            } else if i == 0 {
                assert(debits[0] == out[i]);
            } else {
                let tail = settle(rest, moved, step);
                assert(out[i] == tail[i - 1]);
                let j = choose|j: int| 0 <= j < rest.len() && rest[j] == tail[i - 1];
                assert(debits[j + 1] == out[i]);
            }
        }
    }
}

/// A debit whose deadline has come leaves no trace in a settlement, whether
/// it is confirmed or given up: the debits before it settle as if it had
/// never been committed.
pub proof fn lemma_settle_drops_expired_last(
    debits: Seq<Debit>,
    d: Debit,
    moved: Movement,
    step: u32,
)
    requires
        step >= d.deadline,
    ensures
        settle(debits.push(d), moved, step) == settle(debits, moved, step),
    decreases debits.len(),
{
    let all = debits.push(d);
    if debits.len() == 0 {
        assert(all.drop_first() == Seq::<Debit>::empty());
        assert(all.first() == d);
        assert(settle(all.drop_first(), moved, step) == Seq::<Debit>::empty());
        assert(settle(all.drop_first(), moved.less(d.cost), step) == Seq::<Debit>::empty());
    } else {
        let first = debits.first();
        assert(all.first() == first);
        assert(all.drop_first() == debits.drop_first().push(d));
        lemma_settle_drops_expired_last(debits.drop_first(), d, moved, step);
        lemma_settle_drops_expired_last(debits.drop_first(), d, moved.less(first.cost), step);
    }
}

/// A commit that no report confirms within the horizon is undone by the
/// first report at or after its deadline: the ledger is then what it would
/// be had the commit never been made, so what is available is restored.
pub proof fn lemma_unconfirmed_commit_expires(
    l: LedgerView,
    unit_type: Option<u32>,
    cost: Cost,
    resources: Resources,
    step: u32,
)
    requires
        step >= l.step + CONFIRMATION_HORIZON,
    ensures
        l.commit_for(unit_type, cost).reconcile(resources, step) == l.reconcile(resources, step),
        l.commit_for(unit_type, cost).reconcile(resources, step).available_minerals()
            == l.reconcile(resources, step).available_minerals(),
{
    if cost.valid() {
        lemma_settle_drops_expired_last(
            l.debits,
            l.debit_for(unit_type, cost),
            Movement::between(l.resources, resources),
            step,
        );
    }
}

} // verus!
