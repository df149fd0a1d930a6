//! The world: the entities that are known at a step, found by tag in
//! constant time and handed out in a fixed order, and the step of the
//! differ that takes the world from one snapshot to the next.

use vstd::prelude::*;
use std::collections::{HashMap, HashSet};
use crate::events::{construction_transition, Diff, Transition};
use crate::laws::{
    lemma_find_at, lemma_fresh_deaths, lemma_ingest_wf, lemma_retained, lemma_visible,
};
use crate::unit::{
    advance_phase, normalize, Catalog, Category, Entity, EntityView, Order, Owner, Point2,
    RawUnit,
};
use crate::units::{
    admitted, alert_deaths, created, death_notices, distinct_tags, find, flagged_deaths,
    fresh_deaths, holds, in_group, is_retained, is_vanished, observe, partition_of, raw_views,
    reported_tags, reports, retained, transitions, vanished, visible, Alert, Group, Partition,
    Snapshot, WorldView, RETENTION_HORIZON,
};

verus! {

broadcast use vstd::std_specs::hash::group_hash_axioms;

/// The views of a list of entities.
pub open spec fn entity_views(entities: Seq<Entity>) -> Seq<EntityView> {
    entities.map_values(|e: Entity| e@)
}

/// Whether an index says, for every entity of a list, where it stands, and
/// holds nothing else.
pub open spec fn index_matches(index: Map<u64, usize>, entities: Seq<EntityView>) -> bool {
    &&& forall|i: int|
        0 <= i < entities.len() ==> index.contains_key((#[trigger] entities[i]).tag)
            && index[entities[i].tag] == i
    &&& forall|tag: u64| #[trigger]
        index.contains_key(tag) ==> index[tag] < entities.len() && entities[index[tag] as int].tag
            == tag
}

/// The tags of the entities of a partition that are in a group, in the
/// order of the world.
pub open spec fn select(entities: Seq<EntityView>, partition: Partition, group: Group) -> Seq<u64>
    decreases entities.len(),
{
    if entities.len() == 0 {
        Seq::empty()
    } else {
        let rest = select(entities.drop_last(), partition, group);
        if partition_of(entities.last()) == partition && in_group(entities.last(), group) {
            rest.push(entities.last().tag)
        } else {
            rest
        }
    }
}

/// A tag is selected exactly when an entity with that tag is in the
/// partition and in the group. Selected with the group of everything, the
/// tags are the members of the partition.
pub proof fn lemma_select(entities: Seq<EntityView>, partition: Partition, group: Group)
    ensures
        select(entities, partition, group).len() <= entities.len(),
        forall|tag: u64|
            #[trigger] select(entities, partition, group).contains(tag) <==> exists|i: int|
                0 <= i < entities.len() && (#[trigger] entities[i]).tag == tag && partition_of(
                    entities[i],
                ) == partition && in_group(entities[i], group),
    decreases entities.len(),
{
    let out = select(entities, partition, group);
    if entities.len() > 0 {
        let front = entities.drop_last();
        let rest = select(front, partition, group);
        let last = entities.last();
        let grows = partition_of(last) == partition && in_group(last, group);
        lemma_select(front, partition, group);
        assert(entities[entities.len() - 1] == last);
        assert forall|tag: u64| #[trigger] out.contains(tag) <==> exists|i: int|
            0 <= i < entities.len() && (#[trigger] entities[i]).tag == tag && partition_of(
                entities[i],
            ) == partition && in_group(entities[i], group) by {
            if out.contains(tag) {
                let p = choose|p: int| 0 <= p < out.len() && out[p] == tag;
                if grows && p == out.len() - 1 {
                    assert(entities[entities.len() - 1].tag == tag);
                } else {
                    assert(rest[p] == tag);
                    assert(rest.contains(tag));
                    let i = choose|i: int|
                        0 <= i < front.len() && (#[trigger] front[i]).tag == tag && partition_of(
                            front[i],
                        ) == partition && in_group(front[i], group);
                    assert(entities[i] == front[i]);
                }
            }
            if exists|i: int|
                0 <= i < entities.len() && (#[trigger] entities[i]).tag == tag && partition_of(
                    entities[i],
                ) == partition && in_group(entities[i], group) {
                let i = choose|i: int|
                    0 <= i < entities.len() && (#[trigger] entities[i]).tag == tag && partition_of(
                        entities[i],
                    ) == partition && in_group(entities[i], group);
                if i == entities.len() - 1 {
                    assert(out[out.len() - 1] == tag);
                } else {
                    assert(front[i] == entities[i]);
                    assert(rest.contains(tag));
                    let p = choose|p: int| 0 <= p < rest.len() && rest[p] == tag;
                    assert(out[p] == tag);
                }
            }
        }
    } else {
        assert forall|tag: u64| #[trigger] out.contains(tag) <==> exists|i: int|
            0 <= i < entities.len() && (#[trigger] entities[i]).tag == tag && partition_of(
                entities[i],
            ) == partition && in_group(entities[i], group) by {}
    }
}

/// The number of the agent's units of a type.
pub open spec fn count_existing(entities: Seq<EntityView>, unit_type: u32) -> nat
    decreases entities.len(),
{
    if entities.len() == 0 {
        0
    } else {
        count_existing(entities.drop_last(), unit_type) + if entities.last().owner == Owner::Mine
            && entities.last().unit_type == unit_type {
            1nat
        } else {
            0nat
        }
    }
}

/// The number of orders of a queue that use an ability.
pub open spec fn count_orders(orders: Seq<Order>, ability: u32) -> nat
    decreases orders.len(),
{
    if orders.len() == 0 {
        0
    } else {
        count_orders(orders.drop_last(), ability) + if orders.last().ability == ability {
            1nat
        } else {
            0nat
        }
    }
}

/// The number of orders in the queues of the agent's units that use an
/// ability.
pub open spec fn count_ordered(entities: Seq<EntityView>, ability: u32) -> nat
    decreases entities.len(),
{
    if entities.len() == 0 {
        0
    } else {
        count_ordered(entities.drop_last(), ability) + if entities.last().owner == Owner::Mine {
            count_orders(entities.last().orders, ability)
        } else {
            0nat
        }
    }
}

/// The world model.
pub struct World {
    entities: Vec<Entity>,
    index: HashMap<u64, usize>,
    graveyard: HashSet<u64>,
    step: u32,
    ramps: Vec<Point2>,
    expansions: Vec<Point2>,
}

impl View for World {
    type V = WorldView;

    closed spec fn view(&self) -> WorldView {
        WorldView {
            entities: entity_views(self.entities@),
            graveyard: self.graveyard@,
            step: self.step,
            ramps: self.ramps@,
            expansions: self.expansions@,
        }
    }
}

/// What the differ has built from the records of a snapshot.
struct Admission {
    arena: Vec<Entity>,
    index: HashMap<u64, usize>,
    created: Vec<u64>,
    construction: Vec<Transition>,
}

/// The partition that an entity belongs to.
pub fn partition_for(e: &Entity) -> (p: Partition)
    ensures
        p == partition_of(e@),
{
    match e.owner {
        Owner::Mine => Partition::Mine,
        Owner::Neutral => Partition::Neutral,
        Owner::Opponent => if e.cached {
            Partition::EnemyCached
        } else {
            Partition::EnemyVisible
        },
    }
}

/// Whether an entity is in a group.
pub fn group_holds(e: &Entity, group: Group) -> (b: bool)
    ensures
        b == in_group(e@, group),
{
    match group {
        Group::All => true,
        Group::Structures => e.category.structure(),
        Group::Units => !e.category.structure() && !matches!(e.category, Category::Placeholder),
        Group::Townhalls => matches!(e.category, Category::Townhall),
        Group::Workers => matches!(e.category, Category::Worker),
        Group::GasBuildings => matches!(e.category, Category::GasBuilding),
        Group::Larvae => matches!(e.category, Category::Larva),
        Group::Placeholders => matches!(e.category, Category::Placeholder),
        Group::Resources => e.category.resource(),
    }
}

/// Whether two partitions are the same.
fn same_partition(a: Partition, b: Partition) -> (same: bool)
    ensures
        same == (a == b),
{
    match a {
        Partition::Mine => matches!(b, Partition::Mine),
        Partition::EnemyVisible => matches!(b, Partition::EnemyVisible),
        Partition::EnemyCached => matches!(b, Partition::EnemyCached),
        Partition::Neutral => matches!(b, Partition::Neutral),
    }
}

/// Gathers the death notices of a snapshot: the death alerts, then the
/// records that are marked as destroyed.
fn collect_notices(snapshot: &Snapshot) -> (notices: Vec<u64>)
    ensures
        notices@ == death_notices(snapshot@),
{
    let mut notices: Vec<u64> = Vec::new();
    let n = snapshot.alerts.len();
    let mut i: usize = 0;
    while i < n
        invariant
            i <= n,
            n == snapshot.alerts@.len(),
            notices@ == alert_deaths(snapshot.alerts@.take(i as int)),
        decreases n - i,
    {
        proof {
            assert(snapshot.alerts@.take(i + 1).drop_last() == snapshot.alerts@.take(i as int));
        }
        match snapshot.alerts[i] {
            Alert::UnitDied(tag) => {
                notices.push(tag);
            },
            Alert::Other(_) => {},
        }
        i = i + 1;
    }
    proof {
        assert(snapshot.alerts@.take(n as int) == snapshot.alerts@);
    }
    let ghost from_alerts = notices@;
    let ghost units = raw_views(snapshot.units@);
    let m = snapshot.units.len();
    let mut j: usize = 0;
    while j < m
        invariant
            j <= m,
            m == snapshot.units@.len(),
            units == raw_views(snapshot.units@),
            from_alerts == alert_deaths(snapshot.alerts@),
            notices@ == from_alerts + flagged_deaths(units.take(j as int)),
        decreases m - j,
    {
        proof {
            assert(units.take(j + 1).drop_last() == units.take(j as int));
            assert(units.take(j + 1).last() == snapshot.units@[j as int]@);
        }
        if snapshot.units[j].dead {
            notices.push(snapshot.units[j].tag);
        }
        j = j + 1;
    }
    proof {
        assert(units.take(m as int) == units);
    }
    notices
}

/// Enters a run of death notices into a graveyard, and tells which
/// identities were not in it before, each once.
fn bury(graveyard: &mut HashSet<u64>, notices: &Vec<u64>) -> (fresh: Vec<u64>)
    ensures
        final(graveyard)@ == old(graveyard)@.union(notices@.to_set()),
        fresh@ == fresh_deaths(notices@, old(graveyard)@),
{
    let mut fresh: Vec<u64> = Vec::new();
    let n = notices.len();
    let mut i: usize = 0;
    while i < n
        invariant
            i <= n,
            n == notices@.len(),
            graveyard@ == old(graveyard)@.union(notices@.take(i as int).to_set()),
            fresh@ == fresh_deaths(notices@.take(i as int), old(graveyard)@),
        decreases n - i,
    {
        let tag = notices[i];
        proof {
            let front = notices@.take(i as int);
            let next = notices@.take(i + 1);
            assert(next.drop_last() == front);
            assert(next.last() == tag);
            lemma_fresh_deaths(front, old(graveyard)@);
            assert(front.to_set().contains(tag) <==> front.contains(tag));
            assert(next.to_set() =~= front.to_set().insert(tag)) by {
                assert forall|t: u64| next.to_set().contains(t) <==> front.to_set().insert(
                    tag,
                ).contains(t) by {
                    if next.contains(t) {
                        let p = choose|p: int| 0 <= p < next.len() && next[p] == t;
                        if p < front.len() {
                            assert(front[p] == t);
                        }
                    }
                    if front.contains(t) {
                        let p = choose|p: int| 0 <= p < front.len() && front[p] == t;
                        assert(next[p] == t);
                    }
                    assert(next[i as int] == tag);
                }
            }
            assert(old(graveyard)@.union(next.to_set()) =~= old(graveyard)@.union(
                front.to_set(),
            ).insert(tag));
        }
        if graveyard.insert(tag) {
            fresh.push(tag);
        }
        i = i + 1;
    }
    proof {
        assert(notices@.take(n as int) == notices@);
    }
    fresh
}

/// Builds the entities for the records of a snapshot that enter the world,
/// and finds the identities that are new and the construction transitions.
fn take_in(
    entities: &Vec<Entity>,
    index: &HashMap<u64, usize>,
    graveyard: &HashSet<u64>,
    units: &Vec<RawUnit>,
    catalog: &Catalog,
    step: u32,
) -> (out: Admission)
    requires
        index_matches(index@, entity_views(entities@)),
    ensures
        ({
            let before = entity_views(entities@);
            let records = admitted(raw_views(units@), graveyard@);
            &&& entity_views(out.arena@) == visible(records, before, catalog@, step)
            &&& index_matches(out.index@, entity_views(out.arena@))
            &&& out.created@ == created(records, before)
            &&& out.construction@ == transitions(records, before, catalog@, step)
        }),
{
    let ghost before = entity_views(entities@);
    let ghost raws = raw_views(units@);
    let mut arena: Vec<Entity> = Vec::new();
    let mut fresh_index: HashMap<u64, usize> = HashMap::new();
    let mut created_tags: Vec<u64> = Vec::new();
    let mut construction: Vec<Transition> = Vec::new();
    let n = units.len();
    let mut i: usize = 0;
    proof {
        assert(entity_views(arena@) =~= visible(
            admitted(raws.take(0), graveyard@),
            before,
            catalog@,
            step,
        ));
    }
    while i < n
        invariant
            i <= n,
            n == units@.len(),
            before == entity_views(entities@),
            raws == raw_views(units@),
            index_matches(index@, before),
            entity_views(arena@) == visible(
                admitted(raws.take(i as int), graveyard@),
                before,
                catalog@,
                step,
            ),
            index_matches(fresh_index@, entity_views(arena@)),
            created_tags@ == created(admitted(raws.take(i as int), graveyard@), before),
            construction@ == transitions(
                admitted(raws.take(i as int), graveyard@),
                before,
                catalog@,
                step,
            ),
        decreases n - i,
    {
        let raw = &units[i];
        let ghost records = admitted(raws.take(i as int), graveyard@);
        let ghost shown = entity_views(arena@);
        proof {
            assert(raws.take(i + 1).drop_last() == raws.take(i as int));
            assert(raws.take(i + 1).last() == raw@);
            lemma_visible(records, before, catalog@, step);
            assert(reports(records, raw.tag) <==> holds(shown, raw.tag));
            if holds(shown, raw.tag) {
                let p = choose|p: int| 0 <= p < shown.len() && (#[trigger] shown[p]).tag == raw.tag;
                assert(fresh_index@.contains_key(shown[p].tag));
            }
            if fresh_index@.contains_key(raw.tag) {
                assert(shown[fresh_index@[raw.tag] as int].tag == raw.tag);
            }
        }
        if !graveyard.contains(&raw.tag) && !fresh_index.contains_key(&raw.tag) {
            let mut e = normalize(raw, catalog, step);
            match index.get(&raw.tag) {
                Some(k) => {
                    proof {
                        assert(before[*k as int].tag == raw.tag);
                        assert(distinct_tags(before)) by {
                            assert forall|a: int, b: int| 0 <= a < b < before.len() implies (
                            #[trigger] before[a]).tag != (#[trigger] before[b]).tag by {
                                assert(index@[before[a].tag] == a);
                                assert(index@[before[b].tag] == b);
                            }
                        }
                        lemma_find_at(before, *k as int);
                        assert(before[*k as int] == entities@[*k as int]@);
                    }
                    let previous = &entities[*k];
                    let phase = advance_phase(
                        previous.phase,
                        e.owner,
                        e.category,
                        e.under_construction,
                    );
                    match construction_transition(raw.tag, previous.phase, phase) {
                        Some(t) => {
                            construction.push(t);
                        },
                        None => {},
                    }
                    e.phase = phase;
                },
                None => {
                    proof {
                        if holds(before, raw.tag) {
                            let p = choose|p: int|
                                0 <= p < before.len() && (#[trigger] before[p]).tag == raw.tag;
                            assert(index@.contains_key(before[p].tag));
                        }
                    }
                    created_tags.push(raw.tag);
                },
            }
            proof {
                assert(e@ == observe(find(before, raw.tag), raw@, catalog@, step));
            }
            fresh_index.insert(raw.tag, arena.len());
            arena.push(e);
            proof {
                let grown = records.push(raw@);
                assert(admitted(raws.take(i + 1), graveyard@) == grown);
                assert(grown.drop_last() == records);
                assert(grown.last() == raw@);
                let now = entity_views(arena@);
                let all = visible(grown, before, catalog@, step);
                assert(now.len() == all.len());
                assert forall|a: int| 0 <= a < now.len() implies now[a] == all[a] by {
                    if a < shown.len() {
                        assert(now[a] == arena@[a]@);
                        assert(shown[a] == arena@[a]@);
                        assert(grown[a] == records[a]);
                    } else {
                        assert(now[a] == e@);
                        assert(grown[a] == raw@);
                    }
                }
                assert(now =~= all);
                assert forall|a: int| 0 <= a < now.len() implies fresh_index@.contains_key(
                    (#[trigger] now[a]).tag,
                ) && fresh_index@[now[a].tag] == a by {
                    if a < shown.len() {
                        assert(now[a] == shown[a]);
                    }
                }
                assert forall|tag: u64| #[trigger]
                    fresh_index@.contains_key(tag) implies fresh_index@[tag] < now.len()
                    && now[fresh_index@[tag] as int].tag == tag by {
                    if tag != raw.tag {
                        assert(now[fresh_index@[tag] as int] == shown[fresh_index@[tag] as int]);
                    }
                }
            }
        } else {
            proof {
                assert(admitted(raws.take(i + 1), graveyard@) == records);
            }
        }
        i = i + 1;
    }
    proof {
        assert(raws.take(n as int) == raws);
    }
    Admission { arena, index: fresh_index, created: created_tags, construction }
}

/// Goes through the entities that the world held, and deals with those that
/// went missing: a unit of the opponent is kept as cached while the
/// retention horizon lasts, any other unit is taken to be destroyed.
fn sweep(
    entities: &Vec<Entity>,
    graveyard: &HashSet<u64>,
    step: u32,
    arena: &mut Vec<Entity>,
    index: &mut HashMap<u64, usize>,
    destroyed: &mut Vec<u64>,
)
    requires
        distinct_tags(entity_views(entities@)),
        index_matches(old(index)@, entity_views(old(arena)@)),
    ensures
        entity_views(final(arena)@) == entity_views(old(arena)@) + retained(
            entity_views(entities@),
            graveyard@,
            old(index)@.dom(),
            step,
        ),
        final(destroyed)@ == old(destroyed)@ + vanished(
            entity_views(entities@),
            graveyard@,
            old(index)@.dom(),
        ),
        index_matches(final(index)@, entity_views(final(arena)@)),
{
    let ghost before = entity_views(entities@);
    let ghost shown = entity_views(arena@);
    let ghost seen = index@.dom();
    let ghost buried = graveyard@;
    let n = entities.len();
    let mut k: usize = 0;
    proof {
        assert(entity_views(arena@) =~= shown + retained(before.take(0), buried, seen, step));
        assert(destroyed@ =~= old(destroyed)@ + vanished(before.take(0), buried, seen));
    }
    while k < n
        invariant
            k <= n,
            n == entities@.len(),
            before == entity_views(entities@),
            distinct_tags(before),
            buried == graveyard@,
            seen == old(index)@.dom(),
            shown == entity_views(old(arena)@),
            index_matches(old(index)@, shown),
            entity_views(arena@) == shown + retained(before.take(k as int), buried, seen, step),
            destroyed@ == old(destroyed)@ + vanished(before.take(k as int), buried, seen),
            index_matches(index@, entity_views(arena@)),
        decreases n - k,
    {
        let e = &entities[k];
        let ghost front = before.take(k as int);
        let ghost kept = retained(front, buried, seen, step);
        let ghost now = entity_views(arena@);
        proof {
            assert(before.take(k + 1).drop_last() == front);
            assert(before.take(k + 1).last() == e@);
            assert(before[k as int] == e@);
            lemma_retained(front, buried, seen, step);
            // The index holds the tag exactly when the snapshot showed it:
            // nothing that was kept so far has the tag of a later entity.
            if index@.contains_key(e.tag) {
                let p = index@[e.tag] as int;
                assert(now[p].tag == e.tag);
                if p >= shown.len() {
                    let r = p - shown.len();
                    assert(now[p] == kept[r]);
                    let j = choose|j: int|
                        0 <= j < front.len() && is_retained(
                            #[trigger] front[j],
                            buried,
                            seen,
                            step,
                        ) && kept[r] == front[j].as_cached();
                    assert(front[j] == before[j]);
                    assert(before[j].tag != before[k as int].tag);
                } else {
                    assert(now[p] == shown[p]);
                    assert(old(index)@.contains_key(shown[p].tag));
                }
            }
            if seen.contains(e.tag) {
                let p = old(index)@[e.tag] as int;
                assert(shown[p].tag == e.tag);
                assert(now[p] == shown[p]);
                assert(index@.contains_key(now[p].tag));
            }
            assert(index@.contains_key(e.tag) <==> seen.contains(e.tag));
        }
        if !graveyard.contains(&e.tag) && !index.contains_key(&e.tag) {
            if matches!(e.owner, Owner::Opponent) {
                if step <= e.last_seen || step - e.last_seen <= RETENTION_HORIZON {
                    let mut c = e.duplicate();
                    c.cached = true;
                    index.insert(c.tag, arena.len());
                    arena.push(c);
                    proof {
                        assert(is_retained(e@, buried, seen, step));
                        assert(c@ == e@.as_cached());
                        let grown = entity_views(arena@);
                        assert(retained(before.take(k + 1), buried, seen, step) == kept.push(
                            e@.as_cached(),
                        ));
                        assert forall|a: int| 0 <= a < grown.len() implies grown[a] == (shown
                            + kept.push(e@.as_cached()))[a] by {
                            if a < now.len() {
                                assert(grown[a] == arena@[a]@);
                                assert(now[a] == arena@[a]@);
                            } else {
                                assert(grown[a] == c@);
                            }
                        }
                        assert(grown =~= shown + retained(
                            before.take(k + 1),
                            buried,
                            seen,
                            step,
                        ));
                        assert forall|a: int| 0 <= a < grown.len() implies index@.contains_key(
                            (#[trigger] grown[a]).tag,
                        ) && index@[grown[a].tag] == a by {
                            if a < now.len() {
                                assert(grown[a] == now[a]);
                            }
                        }
                        assert forall|tag: u64| #[trigger]
                            index@.contains_key(tag) implies index@[tag] < grown.len()
                            && grown[index@[tag] as int].tag == tag by {
                            if tag != e.tag {
                                assert(grown[index@[tag] as int] == now[index@[tag] as int]);
                            }
                        }
                    }
                } else {
                    proof {
                        assert(!is_retained(e@, buried, seen, step));
                    }
                }
            } else {
                destroyed.push(e.tag);
                proof {
                    assert(is_vanished(e@, buried, seen));
                    assert(destroyed@ =~= old(destroyed)@ + vanished(
                        before.take(k + 1),
                        buried,
                        seen,
                    ));
                }
            }
        } else {
            proof {
                assert(!is_retained(e@, buried, seen, step));
                assert(!is_vanished(e@, buried, seen));
            }
        }
        k = k + 1;
    }
    proof {
        assert(before.take(n as int) == before);
    }
}

impl World {
    /// The invariant of the world: what it holds is well formed, and its
    /// index finds every entity.
    pub closed spec fn wf(&self) -> bool {
        &&& self@.wf()
        &&& index_matches(self.index@, self@.entities)
    }

    /// What a well-formed world holds is well formed.
    pub proof fn lemma_wf(&self)
        requires
            self.wf(),
        ensures
            self@.wf(),
    {
    }

    /// A world that holds nothing, at step 0.
    pub fn new() -> (w: World)
        ensures
            w.wf(),
            w@ == WorldView::empty(),
    {
        let w = World {
            entities: Vec::new(),
            index: HashMap::new(),
            graveyard: HashSet::new(),
            step: 0,
            ramps: Vec::new(),
            expansions: Vec::new(),
        };
        proof {
            assert(w@.entities =~= Seq::<EntityView>::empty());
        }
        w
    }

    /// Takes in the features of the map, once they are worked out: the
    /// ramps and the expansions. The entities stay as they are.
    pub fn set_map(&mut self, ramps: Vec<Point2>, expansions: Vec<Point2>)
        requires
            old(self).wf(),
        ensures
            final(self).wf(),
            final(self)@ == old(self)@.with_map(ramps@, expansions@),
    {
        self.ramps = ramps;
        self.expansions = expansions;
    }

    /// The ramps of the map.
    pub fn ramps(&self) -> (r: &Vec<Point2>)
        ensures
            r@ == self@.ramps,
    {
        &self.ramps
    }

    /// The expansions of the map.
    pub fn expansions(&self) -> (e: &Vec<Point2>)
        ensures
            e@ == self@.expansions,
    {
        &self.expansions
    }

    /// The step of the last snapshot.
    pub fn step(&self) -> (s: u32)
        ensures
            s == self@.step,
    {
        self.step
    }

    /// The number of entities that the world holds.
    pub fn len(&self) -> (n: usize)
        ensures
            n == self@.entities.len(),
    {
        self.entities.len()
    }

    /// Whether the world holds an entity with the given tag.
    pub fn contains(&self, tag: u64) -> (b: bool)
        requires
            self.wf(),
        ensures
            b == self@.contains(tag),
    {
        let b = self.index.contains_key(&tag);
        proof {
            let views = self@.entities;
            if holds(views, tag) {
                let p = choose|p: int| 0 <= p < views.len() && (#[trigger] views[p]).tag == tag;
                assert(self.index@.contains_key(views[p].tag));
            }
            if b {
                assert(views[self.index@[tag] as int].tag == tag);
            }
        }
        b
    }

    /// The entity with the given tag, where the world holds one.
    pub fn get(&self, tag: u64) -> (e: Option<&Entity>)
        requires
            self.wf(),
        ensures
            match e {
                Some(e) => self@.get(tag) == Some(e@),
                None => self@.get(tag) is None,
            },
    {
        match self.index.get(&tag) {
            Some(k) => {
                proof {
                    let views = self@.entities;
                    assert(views[*k as int].tag == tag);
                    lemma_find_at(views, *k as int);
                    assert(views[*k as int] == self.entities@[*k as int]@);
                }
                Some(&self.entities[*k])
            },
            None => {
                proof {
                    let views = self@.entities;
                    if holds(views, tag) {
                        let p = choose|p: int|
                            0 <= p < views.len() && (#[trigger] views[p]).tag == tag;
                        assert(self.index@.contains_key(views[p].tag));
                    }
                }
                None
            },
        }
    }

    /// Whether the identity is known to be destroyed.
    pub fn is_destroyed(&self, tag: u64) -> (b: bool)
        ensures
            b == self@.graveyard.contains(tag),
    {
        self.graveyard.contains(&tag)
    }

    /// The partition that holds the identity, where the world holds it.
    pub fn partition(&self, tag: u64) -> (p: Option<Partition>)
        requires
            self.wf(),
        ensures
            match p {
                Some(p) => self@.contains(tag) && self@.members(p).contains(tag) && p
                    == partition_of(self@.get(tag)->0),
                None => !self@.contains(tag),
            },
    {
        match self.get(tag) {
            Some(e) => {
                proof {
                    crate::laws::lemma_one_partition(self@, tag);
                }
                Some(partition_for(e))
            },
            None => None,
        }
    }

    /// The tags of the entities of a partition that are in a group, in the
    /// order of the world: first the entities that the last snapshot
    /// reported, in its order, then the cached ones.
    pub fn select(&self, partition: Partition, group: Group) -> (tags: Vec<u64>)
        ensures
            tags@ == select(self@.entities, partition, group),
            group == Group::All ==> forall|tag: u64|
                tags@.contains(tag) <==> self@.members(partition).contains(tag),
    {
        proof {
            lemma_select(self@.entities, partition, group);
        }
        let ghost views = self@.entities;
        let mut tags: Vec<u64> = Vec::new();
        let n = self.entities.len();
        let mut i: usize = 0;
        while i < n
            invariant
                i <= n,
                n == self.entities@.len(),
                views == entity_views(self.entities@),
                tags@ == select(views.take(i as int), partition, group),
            decreases n - i,
        {
            let e = &self.entities[i];
            proof {
                assert(views.take(i + 1).drop_last() == views.take(i as int));
                assert(views.take(i + 1).last() == e@);
            }
            if same_partition(partition_for(e), partition) && group_holds(e, group) {
                tags.push(e.tag);
            }
            i = i + 1;
        }
        proof {
            assert(views.take(n as int) == views);
        }
        tags
    }

    /// The number of the agent's units of a type.
    pub fn count_existing(&self, unit_type: u32) -> (n: usize)
        ensures
            n == count_existing(self@.entities, unit_type),
    {
        let ghost views = self@.entities;
        let mut count: usize = 0;
        let n = self.entities.len();
        let mut i: usize = 0;
        while i < n
            invariant
                i <= n,
                n == self.entities@.len(),
                views == entity_views(self.entities@),
                count <= i,
                count == count_existing(views.take(i as int), unit_type),
            decreases n - i,
        {
            let e = &self.entities[i];
            proof {
                assert(views.take(i + 1).drop_last() == views.take(i as int));
                assert(views.take(i + 1).last() == e@);
            }
            if matches!(e.owner, Owner::Mine) && e.unit_type == unit_type {
                count = count + 1;
            }
            i = i + 1;
        }
        proof {
            assert(views.take(n as int) == views);
        }
        count
    }

    /// The number of orders in the queues of the agent's units that use an
    /// ability; `usize::MAX` where the number is larger than that.
    pub fn count_ordered(&self, ability: u32) -> (n: usize)
        ensures
            n == if count_ordered(self@.entities, ability) <= usize::MAX {
                count_ordered(self@.entities, ability)
            } else {
                usize::MAX as nat
            },
    {
        let ghost views = self@.entities;
        let mut count: usize = 0;
        let n = self.entities.len();
        let mut i: usize = 0;
        while i < n
            invariant
                i <= n,
                n == self.entities@.len(),
                views == entity_views(self.entities@),
                count == if count_ordered(views.take(i as int), ability) <= usize::MAX {
                    count_ordered(views.take(i as int), ability)
                } else {
                    usize::MAX as nat
                },
            decreases n - i,
        {
            let e = &self.entities[i];
            proof {
                assert(views.take(i + 1).drop_last() == views.take(i as int));
                assert(views.take(i + 1).last() == e@);
            }
            if matches!(e.owner, Owner::Mine) {
                let m = e.orders.len();
                let mut hits: usize = 0;
                let mut j: usize = 0;
                while j < m
                    invariant
                        j <= m,
                        m == e.orders@.len(),
                        hits <= j,
                        hits == count_orders(e.orders@.take(j as int), ability),
                    decreases m - j,
                {
                    proof {
                        assert(e.orders@.take(j + 1).drop_last() == e.orders@.take(j as int));
                    }
                    if e.orders[j].ability == ability {
                        hits = hits + 1;
                    }
                    j = j + 1;
                }
                proof {
                    assert(e.orders@.take(m as int) == e.orders@);
                }
                count = count.saturating_add(hits);
            }
            i = i + 1;
        }
        proof {
            assert(views.take(n as int) == views);
        }
        count
    }

    /// Takes the world from the last snapshot to a new one, and tells what
    /// changed. The world holds afterwards the entities that the snapshot
    /// reports and the opponent's units that are kept as cached; every
    /// identity with a death notice is in the graveyard.
    pub fn ingest(&mut self, snapshot: &Snapshot, catalog: &Catalog) -> (diff: Diff)
        requires
            old(self).wf(),
        ensures
            final(self).wf(),
            final(self)@ == old(self)@.ingest(snapshot@, catalog@),
            diff@ == old(self)@.diff(snapshot@, catalog@),
    {
        let ghost w = self@;
        let notices = collect_notices(snapshot);
        let mut destroyed = bury(&mut self.graveyard, &notices);
        let admission = take_in(
            &self.entities,
            &self.index,
            &self.graveyard,
            &snapshot.units,
            catalog,
            snapshot.step,
        );
        let mut arena = admission.arena;
        let mut index = admission.index;
        let ghost records = w.admitted(snapshot@);
        let ghost shown = entity_views(arena@);
        proof {
            assert(self.graveyard@ == w.buried(snapshot@));
            assert(shown == visible(records, w.entities, catalog@, snapshot.step));
            lemma_visible(records, w.entities, catalog@, snapshot.step);
            assert(index@.dom() =~= w.seen(snapshot@)) by {
                assert forall|tag: u64| index@.dom().contains(tag) <==> reported_tags(
                    records,
                ).contains(tag) by {
                    assert(holds(shown, tag) <==> reports(records, tag));
                    if holds(shown, tag) {
                        let p = choose|p: int|
                            0 <= p < shown.len() && (#[trigger] shown[p]).tag == tag;
                        assert(index@.contains_key(shown[p].tag));
                    }
                    if index@.contains_key(tag) {
                        assert(shown[index@[tag] as int].tag == tag);
                    }
                }
            }
        }
        sweep(
            &self.entities,
            &self.graveyard,
            snapshot.step,
            &mut arena,
            &mut index,
            &mut destroyed,
        );
        self.entities = arena;
        self.index = index;
        self.step = snapshot.step;
        proof {
            lemma_ingest_wf(w, snapshot@, catalog@);
        }
        Diff { destroyed, created: admission.created, construction: admission.construction }
    }
}

} // verus!
