//! The world model and the entity set differ.
//!
//! The world holds every unit that is known at a step: the units that the
//! current snapshot reports, and the opponent's units that left vision and
//! are kept with what was last known of them. Each step the differ compares
//! the world with the new snapshot, identity by identity:
//!
//! - An identity with a death notice is destroyed. It leaves the world for
//!   good: the graveyard remembers it, and no later snapshot brings it back.
//!   A death notice always wins over anything else that is known of the
//!   identity in the same step.
//! - An identity that the snapshot reports is updated, or enters the world.
//! - An identity that the snapshot does not report, and that has no death
//!   notice, has left vision if it is the opponent's: it is kept as cached
//!   until the retention horizon has passed. Any other unit is always in
//!   vision, so it is taken to be destroyed.

use vstd::prelude::*;
use crate::events::{transition_of, DiffView, Transition};
use crate::ledger::Resources;
use crate::unit::{
    next_phase, normalize_spec, Category, EntityView, Owner, Point2, RawUnit, RawUnitView,
};

verus! {

/// The number of steps for which a unit that left vision is kept.
pub const RETENTION_HORIZON: u32 = 1344;

/// Something that the engine tells the agent of in a snapshot.
#[derive(Debug, Copy, Clone, PartialEq, Eq, Structural)]
pub enum Alert {
    /// The unit with this tag was destroyed.
    UnitDied(u64),
    /// Any other alert, by the engine's number for it.
    Other(u32),
}

/// What the engine reports for one step.
#[derive(Debug)]
pub struct Snapshot {
    /// The step that the snapshot was taken at.
    pub step: u32,
    /// The units that the agent can see.
    pub units: Vec<RawUnit>,
    /// The engine's alerts of the step.
    pub alerts: Vec<Alert>,
    /// The agent's resources and supply.
    pub resources: Resources,
    /// The agent's score.
    pub score: i32,
    /// The engine's number for the opponent's race, as far as it shows.
    pub opponent_race: u32,
}

/// What a [`Snapshot`] holds.
pub struct SnapshotView {
    pub step: u32,
    pub units: Seq<RawUnitView>,
    pub alerts: Seq<Alert>,
    pub resources: Resources,
    pub score: i32,
    pub opponent_race: u32,
}

/// The views of a list of raw records.
pub open spec fn raw_views(units: Seq<RawUnit>) -> Seq<RawUnitView> {
    units.map_values(|u: RawUnit| u@)
}

impl View for Snapshot {
    type V = SnapshotView;

    open spec fn view(&self) -> SnapshotView {
        SnapshotView {
            step: self.step,
            units: raw_views(self.units@),
            alerts: self.alerts@,
            resources: self.resources,
            score: self.score,
            opponent_race: self.opponent_race,
        }
    }
}

/// The four parts of the world by ownership. Every entity is in exactly one.
#[derive(Debug, Copy, Clone, PartialEq, Eq, Structural)]
pub enum Partition {
    /// The agent's units.
    Mine,
    /// The opponent's units that the current snapshot reports.
    EnemyVisible,
    /// The opponent's units that left vision and are kept as last known.
    EnemyCached,
    /// The units of no player: resources and the like.
    Neutral,
}

/// The groups that an ownership partition is looked at by. An entity may be
/// in more than one: a townhall is a structure too.
#[derive(Debug, Copy, Clone, PartialEq, Eq, Structural)]
pub enum Group {
    /// Everything.
    All,
    /// Real structures.
    Structures,
    /// Everything that is not a real structure or a placeholder.
    Units,
    Townhalls,
    Workers,
    GasBuildings,
    Larvae,
    Placeholders,
    /// Mineral fields and vespene geysers.
    Resources,
}

/// The partition that an entity belongs to.
pub open spec fn partition_of(e: EntityView) -> Partition {
    match e.owner {
        Owner::Mine => Partition::Mine,
        Owner::Neutral => Partition::Neutral,
        Owner::Opponent => if e.cached {
            Partition::EnemyCached
        } else {
            Partition::EnemyVisible
        },
    }
}

/// Whether an entity is in a group.
pub open spec fn in_group(e: EntityView, group: Group) -> bool {
    match group {
        Group::All => true,
        Group::Structures => e.category.is_structure(),
        Group::Units => !e.category.is_structure() && e.category != Category::Placeholder,
        Group::Townhalls => e.category == Category::Townhall,
        Group::Workers => e.category == Category::Worker,
        Group::GasBuildings => e.category == Category::GasBuilding,
        Group::Larvae => e.category == Category::Larva,
        Group::Placeholders => e.category == Category::Placeholder,
        Group::Resources => e.category.is_resource(),
    }
}

/// Whether a list of entities holds one with the given tag.
pub open spec fn holds(entities: Seq<EntityView>, tag: u64) -> bool {
    exists|i: int| 0 <= i < entities.len() && (#[trigger] entities[i]).tag == tag
}

/// A place at which a list of entities holds the given tag.
pub open spec fn place_of(entities: Seq<EntityView>, tag: u64) -> int {
    choose|i: int| 0 <= i < entities.len() && (#[trigger] entities[i]).tag == tag
}

/// The entity with the given tag, where the list holds one.
pub open spec fn find(entities: Seq<EntityView>, tag: u64) -> Option<EntityView> {
    if holds(entities, tag) {
        Some(entities[place_of(entities, tag)])
    } else {
        None
    }
}

/// Whether no two entities of a list have the same tag.
pub open spec fn distinct_tags(entities: Seq<EntityView>) -> bool {
    forall|i: int, j: int|
        0 <= i < j < entities.len() ==> (#[trigger] entities[i]).tag != (#[trigger] entities[j]).tag
}

/// Whether a list of raw records holds one with the given tag.
pub open spec fn reports(units: Seq<RawUnitView>, tag: u64) -> bool {
    exists|i: int| 0 <= i < units.len() && (#[trigger] units[i]).tag == tag
}

/// The tags that a list of raw records holds.
pub open spec fn reported_tags(units: Seq<RawUnitView>) -> Set<u64> {
    Set::new(|tag: u64| reports(units, tag))
}

/// The tags of the death alerts among the alerts of a step, in their order.
pub open spec fn alert_deaths(alerts: Seq<Alert>) -> Seq<u64>
    decreases alerts.len(),
{
    if alerts.len() == 0 {
        Seq::empty()
    } else {
        let rest = alert_deaths(alerts.drop_last());
        match alerts.last() {
            Alert::UnitDied(tag) => rest.push(tag),
            Alert::Other(_) => rest,
        }
    }
}

/// The tags of the raw records that the engine marks as destroyed, in their
/// order.
pub open spec fn flagged_deaths(units: Seq<RawUnitView>) -> Seq<u64>
    decreases units.len(),
{
    if units.len() == 0 {
        Seq::empty()
    } else {
        let rest = flagged_deaths(units.drop_last());
        if units.last().dead {
            rest.push(units.last().tag)
        } else {
            rest
        }
    }
}

/// All death notices of a snapshot: the death alerts first, then the
/// records that are marked as destroyed.
pub open spec fn death_notices(snapshot: SnapshotView) -> Seq<u64> {
    alert_deaths(snapshot.alerts) + flagged_deaths(snapshot.units)
}

/// The identities that a run of death notices destroys: each identity once,
/// in the order of its first notice, without those that the graveyard holds
/// already.
pub open spec fn fresh_deaths(notices: Seq<u64>, graveyard: Set<u64>) -> Seq<u64>
    decreases notices.len(),
{
    if notices.len() == 0 {
        Seq::empty()
    } else {
        let rest = fresh_deaths(notices.drop_last(), graveyard);
        if graveyard.contains(notices.last()) || rest.contains(notices.last()) {
            rest
        } else {
            rest.push(notices.last())
        }
    }
}

/// The raw records that enter the world: for each identity the first record
/// that reports it, in the order of the snapshot, without the identities
/// that are buried.
pub open spec fn admitted(units: Seq<RawUnitView>, buried: Set<u64>) -> Seq<RawUnitView>
    decreases units.len(),
{
    if units.len() == 0 {
        Seq::empty()
    } else {
        let rest = admitted(units.drop_last(), buried);
        if buried.contains(units.last().tag) || reports(rest, units.last().tag) {
            rest
        } else {
            rest.push(units.last())
        }
    }
}

/// The entity for a raw record that enters the world. With no entity of
/// that identity before, it is the normalized record. Otherwise the
/// construction tracker moves on from the phase that the entity was in.
pub open spec fn observe(
    previous: Option<EntityView>,
    raw: RawUnitView,
    catalog: Map<u32, Category>,
    step: u32,
) -> EntityView {
    let e = normalize_spec(raw, catalog, step);
    match previous {
        Some(p) => e.with_phase(next_phase(p.phase, e.owner, e.category, e.under_construction)),
        None => e,
    }
}

/// The entities for the raw records that enter the world, in their order.
pub open spec fn visible(
    records: Seq<RawUnitView>,
    before: Seq<EntityView>,
    catalog: Map<u32, Category>,
    step: u32,
) -> Seq<EntityView> {
    Seq::new(records.len(), |i: int| observe(find(before, records[i].tag), records[i], catalog, step))
}

/// Whether a unit that was last seen at `last_seen` is still kept at `step`.
pub open spec fn within_retention(last_seen: u32, step: u32) -> bool {
    step - last_seen <= RETENTION_HORIZON
}

/// Whether an entity of the world has gone missing: the snapshot does not
/// report it, and no death notice names it.
pub open spec fn missing(e: EntityView, buried: Set<u64>, seen: Set<u64>) -> bool {
    !buried.contains(e.tag) && !seen.contains(e.tag)
}

/// Whether a missing entity is kept as cached: it is the opponent's, and
/// the retention horizon has not passed.
pub open spec fn is_retained(e: EntityView, buried: Set<u64>, seen: Set<u64>, step: u32) -> bool {
    missing(e, buried, seen) && e.owner == Owner::Opponent && within_retention(e.last_seen, step)
}

/// Whether a missing entity is taken to be destroyed: it is not the
/// opponent's.
pub open spec fn is_vanished(e: EntityView, buried: Set<u64>, seen: Set<u64>) -> bool {
    missing(e, buried, seen) && e.owner != Owner::Opponent
}

/// The entities that are kept as cached, in the order of the world, each
/// as it was last known.
pub open spec fn retained(before: Seq<EntityView>, buried: Set<u64>, seen: Set<u64>, step: u32)
    -> Seq<EntityView>
    decreases before.len(),
{
    if before.len() == 0 {
        Seq::empty()
    } else {
        let rest = retained(before.drop_last(), buried, seen, step);
        if is_retained(before.last(), buried, seen, step) {
            rest.push(before.last().as_cached())
        } else {
            rest
        }
    }
}

/// The tags of the entities that went missing and are taken to be
/// destroyed, in the order of the world.
pub open spec fn vanished(before: Seq<EntityView>, buried: Set<u64>, seen: Set<u64>) -> Seq<u64>
    decreases before.len(),
{
    if before.len() == 0 {
        Seq::empty()
    } else {
        let rest = vanished(before.drop_last(), buried, seen);
        if is_vanished(before.last(), buried, seen) {
            rest.push(before.last().tag)
        } else {
            rest
        }
    }
}

/// The tags of the records that bring an identity that the world did not
/// hold, in their order.
pub open spec fn created(records: Seq<RawUnitView>, before: Seq<EntityView>) -> Seq<u64>
    decreases records.len(),
{
    if records.len() == 0 {
        Seq::empty()
    } else {
        let rest = created(records.drop_last(), before);
        if holds(before, records.last().tag) {
            rest
        } else {
            rest.push(records.last().tag)
        }
    }
}

/// The construction transition that a record brings for an identity that
/// the world held before.
pub open spec fn record_transition(
    previous: Option<EntityView>,
    raw: RawUnitView,
    catalog: Map<u32, Category>,
    step: u32,
) -> Option<Transition> {
    match previous {
        Some(p) => transition_of(raw.tag, p.phase, observe(previous, raw, catalog, step).phase),
        None => None,
    }
}

/// The construction transitions that the records bring, in their order.
pub open spec fn transitions(
    records: Seq<RawUnitView>,
    before: Seq<EntityView>,
    catalog: Map<u32, Category>,
    step: u32,
) -> Seq<Transition>
    decreases records.len(),
{
    if records.len() == 0 {
        Seq::empty()
    } else {
        let rest = transitions(records.drop_last(), before, catalog, step);
        match record_transition(
            find(before, records.last().tag),
            records.last(),
            catalog,
            step,
        ) {
            Some(t) => rest.push(t),
            None => rest,
        }
    }
}

/// What a [`World`] holds: the entities, in the order in which they are
/// handed out, the identities that were destroyed, the step of the last
/// snapshot, and the features of the map that the agent was given.
pub struct WorldView {
    pub entities: Seq<EntityView>,
    pub graveyard: Set<u64>,
    pub step: u32,
    /// The ramps of the map, by their top centers.
    pub ramps: Seq<Point2>,
    /// The places where a townhall can stand next to resources.
    pub expansions: Seq<Point2>,
}

impl WorldView {
    /// The world at the start of a game: it holds nothing.
    pub open spec fn empty() -> WorldView {
        WorldView {
            entities: Seq::empty(),
            graveyard: Set::empty(),
            step: 0,
            ramps: Seq::empty(),
            expansions: Seq::empty(),
        }
    }

    /// The world with the features of a map.
    pub open spec fn with_map(self, ramps: Seq<Point2>, expansions: Seq<Point2>) -> WorldView {
        WorldView { ramps, expansions, ..self }
    }

    /// A world is well formed when no two entities share a tag, no entity
    /// is in the graveyard, and only units of the opponent are cached.
    pub open spec fn wf(self) -> bool {
        &&& distinct_tags(self.entities)
        &&& forall|i: int|
            0 <= i < self.entities.len() ==> !self.graveyard.contains(
                (#[trigger] self.entities[i]).tag,
            )
        &&& forall|i: int|
            0 <= i < self.entities.len() ==> ((#[trigger] self.entities[i]).cached
                ==> self.entities[i].owner == Owner::Opponent)
    }

    /// Whether the world holds an entity with the given tag.
    pub open spec fn contains(self, tag: u64) -> bool {
        holds(self.entities, tag)
    }

    /// The entity with the given tag, where the world holds one.
    pub open spec fn get(self, tag: u64) -> Option<EntityView> {
        find(self.entities, tag)
    }

    /// The tags of a partition.
    pub open spec fn members(self, partition: Partition) -> Set<u64> {
        Set::new(
            |tag: u64|
                exists|i: int|
                    0 <= i < self.entities.len() && (#[trigger] self.entities[i]).tag == tag
                        && partition_of(self.entities[i]) == partition,
        )
    }

    /// The graveyard after a snapshot: what it held, and every identity
    /// with a death notice.
    pub open spec fn buried(self, snapshot: SnapshotView) -> Set<u64> {
        self.graveyard.union(death_notices(snapshot).to_set())
    }

    /// The raw records of a snapshot that enter the world.
    pub open spec fn admitted(self, snapshot: SnapshotView) -> Seq<RawUnitView> {
        admitted(snapshot.units, self.buried(snapshot))
    }

    /// The identities that a snapshot brings into the world or keeps in it.
    pub open spec fn seen(self, snapshot: SnapshotView) -> Set<u64> {
        reported_tags(self.admitted(snapshot))
    }

    /// The world after a snapshot: the entities that the snapshot reports,
    /// in its order, then the entities that are kept as cached. The
    /// features of the map stay as they are.
    pub open spec fn ingest(self, snapshot: SnapshotView, catalog: Map<u32, Category>)
        -> WorldView {
        WorldView {
            entities: visible(self.admitted(snapshot), self.entities, catalog, snapshot.step)
                + retained(
                self.entities,
                self.buried(snapshot),
                self.seen(snapshot),
                snapshot.step,
            ),
            graveyard: self.buried(snapshot),
            step: snapshot.step,
            ramps: self.ramps,
            expansions: self.expansions,
        }
    }

    /// What the differ finds between the world and a snapshot. Destroyed
    /// are the identities with a fresh death notice, and after them the
    /// units that went missing and are not the opponent's.
    pub open spec fn diff(self, snapshot: SnapshotView, catalog: Map<u32, Category>) -> DiffView {
        DiffView {
            destroyed: fresh_deaths(death_notices(snapshot), self.graveyard) + vanished(
                self.entities,
                self.buried(snapshot),
                self.seen(snapshot),
            ),
            created: created(self.admitted(snapshot), self.entities),
            construction: transitions(
                self.admitted(snapshot),
                self.entities,
                catalog,
                snapshot.step,
            ),
        }
    }
}

} // verus!
