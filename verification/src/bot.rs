//! The agent's side of one game: the world model, the resource ledger and
//! the action batcher, moved on together once per step.
//!
//! A step goes like this. The snapshot of the step is taken in by
//! [`Bot::update`]: the world is brought up to date, the ledger is
//! reconciled with the reported resources, and the events of the step are
//! handed out. Then the agent's logic runs. It reads the world, asks
//! [`Bot::can_afford`], gives orders with [`Bot::command`] and commits their
//! cost with [`Bot::commit`]. At the end [`Bot::flush_actions`] hands out
//! the batched orders of the step.

use vstd::prelude::*;
use crate::action::{add_request, Batcher, Command, CommandView, views};
use crate::events::{derive_events, detect_race, events_of, in_order, reveal_of};
use crate::ledger::{count_for, Cost, Ledger, LedgerView};
use crate::player::Race;
use crate::unit::{Catalog, Category, Point2, Target};
use crate::units::{Snapshot, SnapshotView, WorldView};
use crate::world::{count_existing, count_ordered, World};
use crate::Event;

verus! {

/// What a [`Bot`] holds.
pub struct BotView {
    pub world: WorldView,
    pub ledger: LedgerView,
    pub batches: Seq<CommandView>,
    pub catalog: Map<u32, Category>,
    /// The race of the opponent as far as it is known: `Random` until a
    /// snapshot shows a concrete race.
    pub opponent_race: Race,
    pub score: i32,
}

impl BotView {
    /// The race that a snapshot reveals, if it reveals one.
    pub open spec fn revealed(self, snapshot: SnapshotView) -> Option<Race> {
        reveal_of(self.opponent_race, snapshot.opponent_race)
    }

    /// The events of the step of a snapshot, in the order in which the
    /// agent receives them.
    pub open spec fn events(self, snapshot: SnapshotView) -> Seq<Event> {
        events_of(self.world.diff(snapshot, self.catalog), self.revealed(snapshot))
    }

    /// The state after a snapshot is taken in. The orders that are waiting
    /// to be sent stay as they are.
    pub open spec fn update(self, snapshot: SnapshotView) -> BotView {
        BotView {
            world: self.world.ingest(snapshot, self.catalog),
            ledger: self.ledger.reconcile(snapshot.resources, snapshot.step),
            batches: self.batches,
            catalog: self.catalog,
            opponent_race: match self.revealed(snapshot) {
                Some(race) => race,
                None => self.opponent_race,
            },
            score: snapshot.score,
        }
    }

    /// The number of units of a type that exist or are on their way: the
    /// agent's units of the type, the orders in the queues of the agent's
    /// units that use the ability which produces the type, and the debits
    /// that are committed for the type and not yet settled.
    pub open spec fn in_flight(self, unit_type: u32, ability: u32) -> nat {
        count_existing(self.world.entities, unit_type) + count_ordered(
            self.world.entities,
            ability,
        ) + count_for(self.ledger.debits, unit_type)
    }
}

/// The opponent's race is revealed once: once a snapshot has revealed a
/// race, no later snapshot reveals one.
pub proof fn lemma_reveal_once(b: BotView, snapshot: SnapshotView, later: SnapshotView)
    requires
        b.revealed(snapshot) is Some,
    ensures
        b.update(snapshot).opponent_race != Race::Random,
        b.update(snapshot).revealed(later) is None,
{
}

/// The agent's side of one game.
pub struct Bot {
    world: World,
    ledger: Ledger,
    batcher: Batcher,
    catalog: Catalog,
    opponent_race: Race,
    score: i32,
}

impl View for Bot {
    type V = BotView;

    closed spec fn view(&self) -> BotView {
        BotView {
            world: self.world@,
            ledger: self.ledger@,
            batches: self.batcher@,
            catalog: self.catalog@,
            opponent_race: self.opponent_race,
            score: self.score,
        }
    }
}

impl Bot {
    /// The invariant of a bot: its world, its ledger and its batcher are
    /// well formed.
    pub closed spec fn wf(&self) -> bool {
        &&& self.world.wf()
        &&& self.ledger.wf()
        &&& self.batcher.wf()
    }

    /// What a well-formed bot holds is well formed.
    pub proof fn lemma_wf(&self)
        requires
            self.wf(),
        ensures
            self@.world.wf(),
            crate::action::batches_wf(self@.batches),
    {
        self.world.lemma_wf();
    }

    /// A bot at the start of a game, with the catalog of unit types and the
    /// race of the opponent as far as it is known.
    pub fn new(catalog: Catalog, opponent_race: Race) -> (b: Bot)
        ensures
            b.wf(),
            b@.world == WorldView::empty(),
            b@.ledger == LedgerView::empty(),
            b@.batches == Seq::<CommandView>::empty(),
            b@.catalog == catalog@,
            b@.opponent_race == opponent_race,
            b@.score == 0,
    {
        Bot {
            world: World::new(),
            ledger: Ledger::new(),
            batcher: Batcher::new(),
            catalog,
            opponent_race,
            score: 0,
        }
    }

    /// The world model, for reading.
    pub fn world(&self) -> (w: &World)
        requires
            self.wf(),
        ensures
            w.wf(),
            w@ == self@.world,
    {
        &self.world
    }

    /// Takes in the ramps and the expansions of the map.
    pub fn set_map(&mut self, ramps: Vec<Point2>, expansions: Vec<Point2>)
        requires
            old(self).wf(),
        ensures
            final(self).wf(),
            final(self)@ == (BotView {
                world: old(self)@.world.with_map(ramps@, expansions@),
                ..old(self)@
            }),
    {
        self.world.set_map(ramps, expansions);
    }

    /// The resource ledger, for reading.
    pub fn ledger(&self) -> (l: &Ledger)
        requires
            self.wf(),
        ensures
            l.wf(),
            l@ == self@.ledger,
    {
        &self.ledger
    }

    /// The race of the opponent as far as it is known.
    pub fn opponent_race(&self) -> (r: Race)
        ensures
            r == self@.opponent_race,
    {
        self.opponent_race
    }

    /// The score that the last snapshot reported.
    pub fn score(&self) -> (s: i32)
        ensures
            s == self@.score,
    {
        self.score
    }

    /// Takes in the snapshot of a step, before the agent's logic runs: the
    /// world is brought up to date, the ledger is reconciled, and the
    /// events of the step are handed out in their order.
    pub fn update(&mut self, snapshot: &Snapshot) -> (events: Vec<Event>)
        requires
            old(self).wf(),
        ensures
            final(self).wf(),
            final(self)@ == old(self)@.update(snapshot@),
            events@ == old(self)@.events(snapshot@),
            in_order(events@),
    {
        let diff = self.world.ingest(snapshot, &self.catalog);
        self.ledger.reconcile(snapshot.resources, snapshot.step);
        let revealed = detect_race(self.opponent_race, snapshot.opponent_race);
        match revealed {
            Some(race) => {
                self.opponent_race = race;
            },
            None => {},
        }
        self.score = snapshot.score;
        derive_events(&diff, revealed)
    }

    /// Whether the agent can pay a cost out of what is reported less what
    /// is committed. Supply is checked only when `reserve_supply` is set. A
    /// cost with a negative part cannot be afforded.
    pub fn can_afford(&self, cost: Cost, reserve_supply: bool) -> (ok: bool)
        requires
            self.wf(),
        ensures
            ok == self@.ledger.can_afford(cost, reserve_supply),
    {
        self.ledger.can_afford(cost, reserve_supply)
    }

    /// Commits the cost of an action that was just ordered.
    pub fn commit(&mut self, cost: Cost)
        requires
            old(self).wf(),
        ensures
            final(self).wf(),
            final(self)@ == (BotView { ledger: old(self)@.ledger.commit(cost), ..old(self)@ }),
    {
        self.ledger.commit(cost);
    }

    /// Commits the cost of an action that produces a unit of a type.
    pub fn commit_for(&mut self, unit_type: u32, cost: Cost)
        requires
            old(self).wf(),
        ensures
            final(self).wf(),
            final(self)@ == (BotView {
                ledger: old(self)@.ledger.commit_for(Some(unit_type), cost),
                ..old(self)@
            }),
    {
        self.ledger.commit_for(Some(unit_type), cost);
    }

    /// The number of units of a type that exist or are on their way, so
    /// that the agent does not order twice what it has ordered already;
    /// `usize::MAX` where the number is larger than that. `ability` is the
    /// ability that produces the type.
    pub fn count_in_flight(&self, unit_type: u32, ability: u32) -> (n: usize)
        ensures
            n == if self@.in_flight(unit_type, ability) <= usize::MAX {
                self@.in_flight(unit_type, ability)
            } else {
                usize::MAX as nat
            },
    {
        let existing = self.world.count_existing(unit_type);
        let ordered = self.world.count_ordered(ability);
        let pending = self.ledger.pending_count(unit_type);
        existing.saturating_add(ordered).saturating_add(pending)
    }

    /// Takes in one action request of the agent: the units named by
    /// `issuers` are to use `ability` on `target`.
    pub fn command(&mut self, ability: u32, issuers: &Vec<u64>, target: Target)
        requires
            old(self).wf(),
        ensures
            final(self).wf(),
            final(self)@ == (BotView {
                batches: add_request(old(self)@.batches, ability, target, issuers@),
                ..old(self)@
            }),
    {
        self.batcher.issue(ability, issuers, target);
    }

    /// Hands out the batched orders of the step, in the order in which
    /// their abilities and targets were first asked for, and starts over.
    pub fn flush_actions(&mut self) -> (commands: Vec<Command>)
        requires
            old(self).wf(),
        ensures
            final(self).wf(),
            views(commands@) == old(self)@.batches,
            final(self)@ == (BotView { batches: Seq::empty(), ..old(self)@ }),
    {
        self.batcher.flush()
    }
}

} // verus!
