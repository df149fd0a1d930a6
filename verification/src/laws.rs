//! What holds of the world model at every step.
//!
//! The first part of this file states what each piece of the differ yields.
//! The second part states the laws of the world as a whole: that it stays
//! well formed, that every identity of a snapshot is in exactly one
//! partition, that a death notice gives one destruction and is final, and
//! that an opponent's unit that leaves vision is kept as it was last known.

use vstd::prelude::*;
use crate::events::events_of;
use crate::player::Race;
use crate::unit::{Category, EntityView, Owner, RawUnitView};
use crate::units::{
    admitted, created, death_notices, distinct_tags, find, fresh_deaths, holds, is_retained,
    is_vanished, partition_of, place_of, reports, retained, vanished, visible, within_retention,
    Partition, SnapshotView, WorldView,
};
use crate::Event;

verus! {

/// In a list without repeated tags, the entity that is found under the tag
/// of an entry is that entry.
pub proof fn lemma_find_at(entities: Seq<EntityView>, k: int)
    requires
        distinct_tags(entities),
        0 <= k < entities.len(),
    ensures
        holds(entities, entities[k].tag),
        find(entities, entities[k].tag) == Some(entities[k]),
{
    let tag = entities[k].tag;
    assert(holds(entities, tag));
    let p = place_of(entities, tag);
    if p < k {
        assert(entities[p].tag != entities[k].tag);
    } else if k < p {
        assert(entities[k].tag != entities[p].tag);
    }
}

/// A run of death notices destroys each identity that it names and that the
/// graveyard does not hold, and destroys it once.
pub proof fn lemma_fresh_deaths(notices: Seq<u64>, graveyard: Set<u64>)
    ensures
        fresh_deaths(notices, graveyard).no_duplicates(),
        forall|tag: u64|
            #[trigger] fresh_deaths(notices, graveyard).contains(tag) <==> (notices.contains(tag)
                && !graveyard.contains(tag)),
    decreases notices.len(),
{
    let out = fresh_deaths(notices, graveyard);
    if notices.len() > 0 {
        let front = notices.drop_last();
        let rest = fresh_deaths(front, graveyard);
        let last = notices.last();
        lemma_fresh_deaths(front, graveyard);
        assert forall|tag: u64| #[trigger] out.contains(tag) <==> (notices.contains(tag)
            && !graveyard.contains(tag)) by {
            assert(notices.contains(tag) <==> (front.contains(tag) || tag == last)) by {
                if notices.contains(tag) {
                    let p = choose|p: int| 0 <= p < notices.len() && notices[p] == tag;
                    if p < front.len() {
                        assert(front[p] == tag);
                    }
                }
                if front.contains(tag) {
                    let p = choose|p: int| 0 <= p < front.len() && front[p] == tag;
                    assert(notices[p] == tag);
                }
                assert(notices[notices.len() - 1] == last);
            }
            if !(graveyard.contains(last) || rest.contains(last)) {
                assert(out == rest.push(last));
                assert(out[out.len() - 1] == last);
                if rest.contains(tag) {
                    let p = choose|p: int| 0 <= p < rest.len() && rest[p] == tag;
                    assert(out[p] == tag);
                }
                if out.contains(tag) {
                    let p = choose|p: int| 0 <= p < out.len() && out[p] == tag;
                    if p < rest.len() {
                        assert(rest[p] == tag);
                    }
                }
            }
        }
        if !(graveyard.contains(last) || rest.contains(last)) {
            assert forall|i: int, j: int| 0 <= i < j < out.len() implies out[i] != out[j] by {
                if j == out.len() - 1 {
                    assert(rest[i] == out[i]);
                    assert(rest.contains(out[i]));
                }
            }
        }
    } else {
        assert forall|tag: u64| #[trigger] out.contains(tag) <==> (notices.contains(tag)
            && !graveyard.contains(tag)) by {}
    }
}

/// The records that enter the world name every identity that the snapshot
/// reports and that is not buried, each once, and no other. Each of them
/// is a record of the snapshot.
pub proof fn lemma_admitted(units: Seq<RawUnitView>, buried: Set<u64>)
    ensures
        admitted(units, buried).len() <= units.len(),
        forall|tag: u64|
            #[trigger] reports(admitted(units, buried), tag) <==> (reports(units, tag)
                && !buried.contains(tag)),
        forall|i: int, j: int|
            0 <= i < j < admitted(units, buried).len() ==> (#[trigger] admitted(
                units,
                buried,
            )[i]).tag != (#[trigger] admitted(units, buried)[j]).tag,
        forall|i: int|
            0 <= i < admitted(units, buried).len() ==> units.contains(
                #[trigger] admitted(units, buried)[i],
            ),
    decreases units.len(),
{
    let out = admitted(units, buried);
    if units.len() > 0 {
        let front = units.drop_last();
        let rest = admitted(front, buried);
        let last = units.last();
        lemma_admitted(front, buried);
        let grows = !(buried.contains(last.tag) || reports(rest, last.tag));
        assert forall|tag: u64| #[trigger] reports(out, tag) <==> (reports(units, tag)
            && !buried.contains(tag)) by {
            assert(reports(units, tag) <==> (reports(front, tag) || tag == last.tag)) by {
                if reports(units, tag) {
                    let p = choose|p: int| 0 <= p < units.len() && (#[trigger] units[p]).tag == tag;
                    if p < front.len() {
                        assert(front[p].tag == tag);
                    }
                }
                if reports(front, tag) {
                    let p = choose|p: int| 0 <= p < front.len() && (#[trigger] front[p]).tag == tag;
                    assert(units[p].tag == tag);
                }
                assert(units[units.len() - 1] == last);
            }
            assert(reports(rest, tag) <==> (reports(front, tag) && !buried.contains(tag)));
            if grows {
                assert(out == rest.push(last));
                assert(out[out.len() - 1] == last);
                if reports(rest, tag) {
                    let p = choose|p: int| 0 <= p < rest.len() && (#[trigger] rest[p]).tag == tag;
                    assert(out[p].tag == tag);
                }
                if reports(out, tag) {
                    let p = choose|p: int| 0 <= p < out.len() && (#[trigger] out[p]).tag == tag;
                    if p < rest.len() {
                        assert(rest[p].tag == tag);
                    }
                }
            }
        }
        assert forall|i: int, j: int| 0 <= i < j < out.len() implies (#[trigger] out[i]).tag != (
        #[trigger] out[j]).tag by {
            if grows {
                if j == out.len() - 1 {
                    assert(rest[i] == out[i]);
                    assert(reports(rest, out[i].tag));
                } else {
                    assert(rest[i] == out[i] && rest[j] == out[j]);
                }
            }
        }
        assert forall|i: int| 0 <= i < out.len() implies units.contains(#[trigger] out[i]) by {
            if grows && i == out.len() - 1 {
                assert(units[units.len() - 1] == out[i]);
            } else {
                assert(rest[i] == out[i]);
                let p = choose|p: int| 0 <= p < front.len() && front[p] == rest[i];
                assert(units[p] == out[i]);
            }
        }
    } else {
        assert forall|tag: u64| #[trigger] reports(out, tag) <==> (reports(units, tag)
            && !buried.contains(tag)) by {}
    }
}

/// The entities that a snapshot reports carry the tags of their records,
/// are seen at the step of the snapshot, and are not cached.
pub proof fn lemma_visible(
    records: Seq<RawUnitView>,
    before: Seq<EntityView>,
    catalog: Map<u32, Category>,
    step: u32,
)
    ensures
        visible(records, before, catalog, step).len() == records.len(),
        forall|i: int|
            0 <= i < records.len() ==> {
                let e = #[trigger] visible(records, before, catalog, step)[i];
                e.tag == records[i].tag && !e.cached && e.last_seen == step
            },
        forall|tag: u64|
            #[trigger] holds(visible(records, before, catalog, step), tag) <==> reports(
                records,
                tag,
            ),
{
    let out = visible(records, before, catalog, step);
    assert forall|tag: u64| #[trigger] holds(out, tag) <==> reports(records, tag) by {
        if holds(out, tag) {
            let p = choose|p: int| 0 <= p < out.len() && (#[trigger] out[p]).tag == tag;
            assert(records[p].tag == tag);
        }
        if reports(records, tag) {
            let p = choose|p: int| 0 <= p < records.len() && (#[trigger] records[p]).tag == tag;
            assert(out[p].tag == tag);
        }
    }
}

/// The entities that are kept as cached are the missing units of the
/// opponent within the retention horizon, each as it was last known, and
/// no other.
pub proof fn lemma_retained(before: Seq<EntityView>, buried: Set<u64>, seen: Set<u64>, step: u32)
    ensures
        retained(before, buried, seen, step).len() <= before.len(),
        forall|i: int|
            0 <= i < retained(before, buried, seen, step).len() ==> exists|j: int|
                0 <= j < before.len() && is_retained(#[trigger] before[j], buried, seen, step)
                    && (#[trigger] retained(before, buried, seen, step)[i])
                    == before[j].as_cached(),
        forall|j: int|
            0 <= j < before.len() && is_retained(#[trigger] before[j], buried, seen, step)
                ==> retained(before, buried, seen, step).contains(before[j].as_cached()),
        distinct_tags(before) ==> distinct_tags(retained(before, buried, seen, step)),
    decreases before.len(),
{
    let out = retained(before, buried, seen, step);
    if before.len() > 0 {
        let front = before.drop_last();
        let rest = retained(front, buried, seen, step);
        let last = before.last();
        lemma_retained(front, buried, seen, step);
        let grows = is_retained(last, buried, seen, step);
        assert(before[before.len() - 1] == last);
        assert forall|i: int| 0 <= i < out.len() implies exists|j: int|
            0 <= j < before.len() && is_retained(#[trigger] before[j], buried, seen, step) && (
            #[trigger] out[i]) == before[j].as_cached() by {
            if grows && i == out.len() - 1 {
                assert(is_retained(before[before.len() - 1], buried, seen, step));
            } else {
                assert(out[i] == rest[i]);
                let j = choose|j: int|
                    0 <= j < front.len() && is_retained(#[trigger] front[j], buried, seen, step)
                        && rest[i] == front[j].as_cached();
                assert(before[j] == front[j]);
            }
        }
        assert forall|j: int|
            0 <= j < before.len() && is_retained(
                #[trigger] before[j],
                buried,
                seen,
                step,
            ) implies out.contains(before[j].as_cached()) by {
            if j == before.len() - 1 {
                assert(out[out.len() - 1] == last.as_cached());
            } else {
                assert(front[j] == before[j]);
                let p = choose|p: int| 0 <= p < rest.len() && rest[p] == front[j].as_cached();
                assert(out[p] == rest[p]);
            }
        }
        if distinct_tags(before) {
            assert(distinct_tags(front)) by {
                assert forall|a: int, b: int| 0 <= a < b < front.len() implies (
                #[trigger] front[a]).tag != (#[trigger] front[b]).tag by {
                    assert(before[a] == front[a] && before[b] == front[b]);
                }
            }
            assert forall|a: int, b: int| 0 <= a < b < out.len() implies (#[trigger] out[a]).tag
                != (#[trigger] out[b]).tag by {
                if grows && b == out.len() - 1 {
                    assert(out[a] == rest[a]);
                    let j = choose|j: int|
                        0 <= j < front.len() && is_retained(
                            #[trigger] front[j],
                            buried,
                            seen,
                            step,
                        ) && rest[a] == front[j].as_cached();
                    assert(before[j] == front[j]);
                    assert(before[j].tag != before[before.len() - 1].tag);
                } else {
                    assert(out[a] == rest[a] && out[b] == rest[b]);
                }
            }
        }
    }
}

/// The units that are taken to be destroyed because they went missing are
/// the missing units that are not the opponent's, each once.
pub proof fn lemma_vanished(before: Seq<EntityView>, buried: Set<u64>, seen: Set<u64>)
    ensures
        vanished(before, buried, seen).len() <= before.len(),
        forall|tag: u64|
            #[trigger] vanished(before, buried, seen).contains(tag) <==> exists|j: int|
                0 <= j < before.len() && (#[trigger] before[j]).tag == tag && is_vanished(
                    before[j],
                    buried,
                    seen,
                ),
        distinct_tags(before) ==> vanished(before, buried, seen).no_duplicates(),
    decreases before.len(),
{
    let out = vanished(before, buried, seen);
    if before.len() > 0 {
        let front = before.drop_last();
        let rest = vanished(front, buried, seen);
        let last = before.last();
        lemma_vanished(front, buried, seen);
        let grows = is_vanished(last, buried, seen);
        assert(before[before.len() - 1] == last);
        assert forall|tag: u64| #[trigger] out.contains(tag) <==> exists|j: int|
            0 <= j < before.len() && (#[trigger] before[j]).tag == tag && is_vanished(
                before[j],
                buried,
                seen,
            ) by {
            if out.contains(tag) {
                let p = choose|p: int| 0 <= p < out.len() && out[p] == tag;
                if grows && p == out.len() - 1 {
                    assert(before[before.len() - 1].tag == tag);
                } else {
                    assert(rest[p] == tag);
                    assert(rest.contains(tag));
                    let j = choose|j: int|
                        0 <= j < front.len() && (#[trigger] front[j]).tag == tag && is_vanished(
                            front[j],
                            buried,
                            seen,
                        );
                    assert(before[j] == front[j]);
                }
            }
            if exists|j: int|
                0 <= j < before.len() && (#[trigger] before[j]).tag == tag && is_vanished(
                    before[j],
                    buried,
                    seen,
                ) {
                let j = choose|j: int|
                    0 <= j < before.len() && (#[trigger] before[j]).tag == tag && is_vanished(
                        before[j],
                        buried,
                        seen,
                    );
                if j == before.len() - 1 {
                    assert(out[out.len() - 1] == tag);
                } else {
                    assert(front[j] == before[j]);
                    assert(rest.contains(tag));
                    let p = choose|p: int| 0 <= p < rest.len() && rest[p] == tag;
                    assert(out[p] == tag);
                }
            }
        }
        if distinct_tags(before) {
            assert(distinct_tags(front)) by {
                assert forall|a: int, b: int| 0 <= a < b < front.len() implies (
                #[trigger] front[a]).tag != (#[trigger] front[b]).tag by {
                    assert(before[a] == front[a] && before[b] == front[b]);
                }
            }
            assert forall|a: int, b: int| 0 <= a < b < out.len() implies out[a] != out[b] by {
                if grows && b == out.len() - 1 {
                    assert(rest[a] == out[a]);
                    assert(rest.contains(out[a]));
                    let j = choose|j: int|
                        0 <= j < front.len() && (#[trigger] front[j]).tag == out[a]
                            && is_vanished(front[j], buried, seen);
                    assert(before[j] == front[j]);
                    assert(before[j].tag != before[before.len() - 1].tag);
                } else {
                    assert(rest[a] == out[a] && rest[b] == out[b]);
                }
            }
        }
    } else {
        assert forall|tag: u64| #[trigger] out.contains(tag) <==> exists|j: int|
            0 <= j < before.len() && (#[trigger] before[j]).tag == tag && is_vanished(
                before[j],
                buried,
                seen,
            ) by {}
    }
}

/// The records that bring a new identity are the admitted records whose
/// identity the world did not hold; each identity is named once.
pub proof fn lemma_created(records: Seq<RawUnitView>, before: Seq<EntityView>)
    requires
        forall|i: int, j: int|
            0 <= i < j < records.len() ==> (#[trigger] records[i]).tag != (
            #[trigger] records[j]).tag,
    ensures
        created(records, before).no_duplicates(),
        forall|tag: u64|
            #[trigger] created(records, before).contains(tag) <==> (reports(records, tag)
                && !holds(before, tag)),
    decreases records.len(),
{
    let out = created(records, before);
    if records.len() > 0 {
        let front = records.drop_last();
        let rest = created(front, before);
        let last = records.last();
        assert forall|i: int, j: int| 0 <= i < j < front.len() implies (#[trigger] front[i]).tag
            != (#[trigger] front[j]).tag by {
            assert(records[i] == front[i] && records[j] == front[j]);
        }
        lemma_created(front, before);
        let grows = !holds(before, last.tag);
        assert(records[records.len() - 1] == last);
        assert forall|tag: u64| #[trigger] out.contains(tag) <==> (reports(records, tag) && !holds(
            before,
            tag,
        )) by {
            assert(reports(records, tag) <==> (reports(front, tag) || tag == last.tag)) by {
                if reports(records, tag) {
                    let p = choose|p: int|
                        0 <= p < records.len() && (#[trigger] records[p]).tag == tag;
                    if p < front.len() {
                        assert(front[p].tag == tag);
                    }
                }
                if reports(front, tag) {
                    let p = choose|p: int| 0 <= p < front.len() && (#[trigger] front[p]).tag == tag;
                    assert(records[p].tag == tag);
                }
            }
            if grows {
                assert(out[out.len() - 1] == last.tag);
                if rest.contains(tag) {
                    let p = choose|p: int| 0 <= p < rest.len() && rest[p] == tag;
                    assert(out[p] == tag);
                }
                if out.contains(tag) {
                    let p = choose|p: int| 0 <= p < out.len() && out[p] == tag;
                    if p < rest.len() {
                        assert(rest[p] == tag);
                    }
                }
            }
        }
        if grows {
            assert forall|i: int, j: int| 0 <= i < j < out.len() implies out[i] != out[j] by {
                if j == out.len() - 1 {
                    assert(rest[i] == out[i]);
                    assert(rest.contains(out[i]));
                    let p = choose|p: int|
                        0 <= p < front.len() && (#[trigger] front[p]).tag == out[i];
                    assert(records[p] == front[p]);
                    assert(records[p].tag != records[records.len() - 1].tag);
                } else {
                    assert(rest[i] == out[i] && rest[j] == out[j]);
                }
            }
        }
    } else {
        assert forall|tag: u64| #[trigger] out.contains(tag) <==> (reports(records, tag) && !holds(
            before,
            tag,
        )) by {}
    }
}

/// A well-formed world stays well formed over every snapshot.
pub proof fn lemma_ingest_wf(w: WorldView, snapshot: SnapshotView, catalog: Map<u32, Category>)
    requires
        w.wf(),
    ensures
        w.ingest(snapshot, catalog).wf(),
{
    let buried = w.buried(snapshot);
    let records = w.admitted(snapshot);
    let seen = w.seen(snapshot);
    let vis = visible(records, w.entities, catalog, snapshot.step);
    let kept = retained(w.entities, buried, seen, snapshot.step);
    let after = w.ingest(snapshot, catalog);
    lemma_admitted(snapshot.units, buried);
    lemma_visible(records, w.entities, catalog, snapshot.step);
    lemma_retained(w.entities, buried, seen, snapshot.step);
    assert(after.entities == vis + kept);
    assert forall|i: int| 0 <= i < after.entities.len() implies {
        let e = #[trigger] after.entities[i];
        &&& !after.graveyard.contains(e.tag)
        &&& e.cached ==> e.owner == Owner::Opponent
        &&& i < vis.len() ==> seen.contains(e.tag)
        &&& i >= vis.len() ==> !seen.contains(e.tag)
    } by {
        let e = after.entities[i];
        if i < vis.len() {
            assert(e == vis[i]);
            assert(records[i].tag == e.tag);
            assert(reports(records, e.tag));
        } else {
            let r = i - vis.len();
            assert(e == kept[r]);
            let j = choose|j: int|
                0 <= j < w.entities.len() && is_retained(
                    #[trigger] w.entities[j],
                    buried,
                    seen,
                    snapshot.step,
                ) && kept[r] == w.entities[j].as_cached();
        }
    }
    assert forall|i: int, j: int| 0 <= i < j < after.entities.len() implies (
    #[trigger] after.entities[i]).tag != (#[trigger] after.entities[j]).tag by {
        if j < vis.len() {
            assert(after.entities[i] == vis[i] && after.entities[j] == vis[j]);
            assert(records[i].tag != records[j].tag);
        } else if i >= vis.len() {
            assert(after.entities[i] == kept[i - vis.len()]);
            assert(after.entities[j] == kept[j - vis.len()]);
        } else {
            assert(seen.contains(after.entities[i].tag));
            assert(!seen.contains(after.entities[j].tag));
        }
    }
}

/// What the world holds after a snapshot: an identity is in it exactly when
/// it is not buried and either the snapshot reports it or it is kept as
/// cached.
pub proof fn lemma_ingest_contains(
    w: WorldView,
    snapshot: SnapshotView,
    catalog: Map<u32, Category>,
    tag: u64,
)
    requires
        w.wf(),
    ensures
        w.ingest(snapshot, catalog).contains(tag) <==> (!w.buried(snapshot).contains(tag) && (
        reports(snapshot.units, tag) || exists|j: int|
            0 <= j < w.entities.len() && (#[trigger] w.entities[j]).tag == tag
                && w.entities[j].owner == Owner::Opponent && within_retention(
                w.entities[j].last_seen,
                snapshot.step,
            ))),
{
    let buried = w.buried(snapshot);
    let records = w.admitted(snapshot);
    let seen = w.seen(snapshot);
    let vis = visible(records, w.entities, catalog, snapshot.step);
    let kept = retained(w.entities, buried, seen, snapshot.step);
    let after = w.ingest(snapshot, catalog);
    lemma_admitted(snapshot.units, buried);
    lemma_visible(records, w.entities, catalog, snapshot.step);
    lemma_retained(w.entities, buried, seen, snapshot.step);
    assert(after.entities == vis + kept);
    assert(reports(records, tag) <==> (reports(snapshot.units, tag) && !buried.contains(tag)));
    assert(holds(vis, tag) <==> reports(records, tag));
    assert(seen.contains(tag) <==> reports(records, tag));
    if after.contains(tag) {
        let p = choose|p: int| 0 <= p < after.entities.len() && (#[trigger] after.entities[p]).tag
            == tag;
        if p < vis.len() {
            assert(vis[p] == after.entities[p]);
            assert(holds(vis, tag));
        } else {
            let r = p - vis.len();
            assert(kept[r] == after.entities[p]);
            let j = choose|j: int|
                0 <= j < w.entities.len() && is_retained(
                    #[trigger] w.entities[j],
                    buried,
                    seen,
                    snapshot.step,
                ) && kept[r] == w.entities[j].as_cached();
            assert(w.entities[j].tag == tag);
        }
    }
    if !buried.contains(tag) && reports(snapshot.units, tag) {
        let p = choose|p: int| 0 <= p < vis.len() && (#[trigger] vis[p]).tag == tag;
        assert(after.entities[p] == vis[p]);
    }
    if !buried.contains(tag) && !reports(snapshot.units, tag) && exists|j: int|
        0 <= j < w.entities.len() && (#[trigger] w.entities[j]).tag == tag && w.entities[j].owner
            == Owner::Opponent && within_retention(w.entities[j].last_seen, snapshot.step) {
        let j = choose|j: int|
            0 <= j < w.entities.len() && (#[trigger] w.entities[j]).tag == tag
                && w.entities[j].owner == Owner::Opponent && within_retention(
                w.entities[j].last_seen,
                snapshot.step,
            );
        assert(is_retained(w.entities[j], buried, seen, snapshot.step));
        let c = w.entities[j].as_cached();
        let p = choose|p: int| 0 <= p < kept.len() && kept[p] == c;
        assert(after.entities[vis.len() + p] == c);
    }
}

/// Every entity of a well-formed world is in exactly one partition.
pub proof fn lemma_one_partition(w: WorldView, tag: u64)
    requires
        w.wf(),
        w.contains(tag),
    ensures
        w.get(tag) is Some,
        forall|p: Partition| #[trigger]
            w.members(p).contains(tag) <==> p == partition_of(w.get(tag)->0),
{
    let k = place_of(w.entities, tag);
    lemma_find_at(w.entities, k);
    assert forall|p: Partition| #[trigger]
        w.members(p).contains(tag) <==> p == partition_of(w.entities[k]) by {
        if w.members(p).contains(tag) {
            let i = choose|i: int|
                0 <= i < w.entities.len() && (#[trigger] w.entities[i]).tag == tag && partition_of(
                    w.entities[i],
                ) == p;
            if i < k {
                assert(w.entities[i].tag != w.entities[k].tag);
            } else if k < i {
                assert(w.entities[k].tag != w.entities[i].tag);
            }
        }
    }
}

/// Every identity that a snapshot reports, and that no death notice names
/// now or named before, is in the world after the snapshot, in exactly one
/// partition, and that partition is not the cached one.
pub proof fn lemma_snapshot_identity_partitioned(
    w: WorldView,
    snapshot: SnapshotView,
    catalog: Map<u32, Category>,
    i: int,
)
    requires
        w.wf(),
        0 <= i < snapshot.units.len(),
        !w.buried(snapshot).contains(snapshot.units[i].tag),
    ensures
        w.ingest(snapshot, catalog).contains(snapshot.units[i].tag),
        forall|p: Partition| #[trigger]
            w.ingest(snapshot, catalog).members(p).contains(snapshot.units[i].tag) <==> p
                == partition_of(w.ingest(snapshot, catalog).get(snapshot.units[i].tag)->0),
        !w.ingest(snapshot, catalog).members(Partition::EnemyCached).contains(
            snapshot.units[i].tag,
        ),
{
    let tag = snapshot.units[i].tag;
    let after = w.ingest(snapshot, catalog);
    let buried = w.buried(snapshot);
    let records = w.admitted(snapshot);
    let vis = visible(records, w.entities, catalog, snapshot.step);
    assert(reports(snapshot.units, tag));
    lemma_ingest_contains(w, snapshot, catalog, tag);
    lemma_ingest_wf(w, snapshot, catalog);
    lemma_one_partition(after, tag);
    lemma_admitted(snapshot.units, buried);
    lemma_visible(records, w.entities, catalog, snapshot.step);
    assert(reports(records, tag));
    assert(holds(vis, tag));
    let p = choose|p: int| 0 <= p < vis.len() && (#[trigger] vis[p]).tag == tag;
    assert(after.entities[p] == vis[p]);
    assert(!vis[p].cached);
    lemma_find_at(after.entities, p);
}

/// The identities that a step destroys are destroyed once each, and none of
/// them is in the world after the step.
pub proof fn lemma_destroyed_once(w: WorldView, snapshot: SnapshotView, catalog: Map<u32, Category>)
    requires
        w.wf(),
    ensures
        w.diff(snapshot, catalog).destroyed.no_duplicates(),
        forall|tag: u64|
            #[trigger] w.diff(snapshot, catalog).destroyed.contains(tag) <==> ((death_notices(
                snapshot,
            ).contains(tag) && !w.graveyard.contains(tag)) || exists|j: int|
                0 <= j < w.entities.len() && (#[trigger] w.entities[j]).tag == tag && is_vanished(
                    w.entities[j],
                    w.buried(snapshot),
                    w.seen(snapshot),
                )),
        forall|tag: u64|
            #[trigger] w.diff(snapshot, catalog).destroyed.contains(tag) ==> !w.ingest(
                snapshot,
                catalog,
            ).contains(tag),
{
    let notices = death_notices(snapshot);
    let buried = w.buried(snapshot);
    let seen = w.seen(snapshot);
    let fresh = fresh_deaths(notices, w.graveyard);
    let gone = vanished(w.entities, buried, seen);
    let out = w.diff(snapshot, catalog).destroyed;
    lemma_fresh_deaths(notices, w.graveyard);
    lemma_vanished(w.entities, buried, seen);
    lemma_admitted(snapshot.units, buried);
    assert(out == fresh + gone);
    assert forall|tag: u64| #[trigger] out.contains(tag) <==> (fresh.contains(tag) || gone.contains(
        tag,
    )) by {
        if out.contains(tag) {
            let p = choose|p: int| 0 <= p < out.len() && out[p] == tag;
            if p < fresh.len() {
                assert(fresh[p] == tag);
            } else {
                assert(gone[p - fresh.len()] == tag);
            }
        }
        if fresh.contains(tag) {
            let p = choose|p: int| 0 <= p < fresh.len() && fresh[p] == tag;
            assert(out[p] == tag);
        }
        if gone.contains(tag) {
            let p = choose|p: int| 0 <= p < gone.len() && gone[p] == tag;
            assert(out[fresh.len() + p] == tag);
        }
    }
    assert forall|tag: u64| fresh.contains(tag) implies buried.contains(tag) by {
        assert(notices.to_set().contains(tag));
    }
    assert forall|i: int, j: int| 0 <= i < j < out.len() implies out[i] != out[j] by {
        if j < fresh.len() {
            assert(out[i] == fresh[i] && out[j] == fresh[j]);
        } else if i >= fresh.len() {
            assert(out[i] == gone[i - fresh.len()] && out[j] == gone[j - fresh.len()]);
        } else {
            assert(out[i] == fresh[i]);
            assert(fresh.contains(out[i]));
            assert(out[j] == gone[j - fresh.len()]);
            assert(gone.contains(out[j]));
        }
    }
    assert forall|tag: u64| #[trigger] out.contains(tag) implies !w.ingest(
        snapshot,
        catalog,
    ).contains(tag) by {
        lemma_ingest_contains(w, snapshot, catalog, tag);
        if gone.contains(tag) {
            let j = choose|j: int|
                0 <= j < w.entities.len() && (#[trigger] w.entities[j]).tag == tag && is_vanished(
                    w.entities[j],
                    buried,
                    seen,
                );
            assert(!seen.contains(tag));
            assert(!reports(w.admitted(snapshot), tag));
            assert forall|k: int|
                0 <= k < w.entities.len() && (#[trigger] w.entities[k]).tag
                    == tag implies w.entities[k].owner != Owner::Opponent by {
                if k < j {
                    assert(w.entities[k].tag != w.entities[j].tag);
                } else if j < k {
                    assert(w.entities[j].tag != w.entities[k].tag);
                }
            }
        }
    }
}

/// An identity with a death notice, not destroyed before, gives exactly one
/// destruction event in the step of the notice. From then on it is in the
/// graveyard and not in the world.
pub proof fn lemma_death_notice(
    w: WorldView,
    snapshot: SnapshotView,
    catalog: Map<u32, Category>,
    revealed: Option<Race>,
    tag: u64,
)
    requires
        w.wf(),
        death_notices(snapshot).contains(tag),
        !w.graveyard.contains(tag),
    ensures
        exists|i: int|
            0 <= i < events_of(w.diff(snapshot, catalog), revealed).len() && #[trigger] events_of(
                w.diff(snapshot, catalog),
                revealed,
            )[i] == Event::UnitDestroyed(tag) && forall|j: int|
                0 <= j < events_of(w.diff(snapshot, catalog), revealed).len()
                    && #[trigger] events_of(w.diff(snapshot, catalog), revealed)[j]
                    == Event::UnitDestroyed(tag) ==> j == i,
        !w.ingest(snapshot, catalog).contains(tag),
        w.ingest(snapshot, catalog).graveyard.contains(tag),
{
    let diff = w.diff(snapshot, catalog);
    let events = events_of(diff, revealed);
    lemma_destroyed_once(w, snapshot, catalog);
    assert(diff.destroyed.contains(tag));
    let i = choose|i: int| 0 <= i < diff.destroyed.len() && diff.destroyed[i] == tag;
    crate::events::lemma_events_in_order(diff, revealed);
    assert(events[i] == Event::UnitDestroyed(tag));
    assert forall|j: int|
        0 <= j < events.len() && #[trigger] events[j] == Event::UnitDestroyed(tag) implies j
        == i by {
        let a = diff.destroyed.len() as int;
        let b = a + diff.created.len();
        let c = b + diff.construction.len();
        if j < a {
            assert(events[j] == Event::UnitDestroyed(diff.destroyed[j]));
        } else if j < b {
            assert(events[j] == Event::UnitCreated(diff.created[j - a]));
        } else if j < c {
            assert(events[j] == crate::events::transition_event(diff.construction[j - b]));
        } else {
            assert(events[j] == Event::RandomRaceDetected(revealed->0));
        }
    }
    assert(death_notices(snapshot).to_set().contains(tag));
}

/// Destruction is final: an identity in the graveyard stays there, never
/// enters the world again, whatever a snapshot reports, and is not
/// destroyed a second time.
pub proof fn lemma_destroyed_is_final(
    w: WorldView,
    snapshot: SnapshotView,
    catalog: Map<u32, Category>,
    tag: u64,
)
    requires
        w.wf(),
        w.graveyard.contains(tag),
    ensures
        w.ingest(snapshot, catalog).graveyard.contains(tag),
        !w.ingest(snapshot, catalog).contains(tag),
        !w.diff(snapshot, catalog).destroyed.contains(tag),
        !w.diff(snapshot, catalog).created.contains(tag),
{
    lemma_ingest_contains(w, snapshot, catalog, tag);
    lemma_destroyed_once(w, snapshot, catalog);
    lemma_admitted(snapshot.units, w.buried(snapshot));
    lemma_created(w.admitted(snapshot), w.entities);
    assert forall|j: int| 0 <= j < w.entities.len() implies (#[trigger] w.entities[j]).tag
        != tag by {}
}

/// A unit of the opponent that the snapshot does not report, and that no
/// death notice names, is kept in the cached partition with everything
/// that was last known of it, as long as the retention horizon has not
/// passed.
pub proof fn lemma_left_vision_is_cached(
    w: WorldView,
    snapshot: SnapshotView,
    catalog: Map<u32, Category>,
    j: int,
)
    requires
        w.wf(),
        0 <= j < w.entities.len(),
        w.entities[j].owner == Owner::Opponent,
        !reports(snapshot.units, w.entities[j].tag),
        !death_notices(snapshot).contains(w.entities[j].tag),
        within_retention(w.entities[j].last_seen, snapshot.step),
    ensures
        w.ingest(snapshot, catalog).get(w.entities[j].tag) == Some(w.entities[j].as_cached()),
        w.ingest(snapshot, catalog).members(Partition::EnemyCached).contains(w.entities[j].tag),
{
    let e = w.entities[j];
    let buried = w.buried(snapshot);
    let records = w.admitted(snapshot);
    let seen = w.seen(snapshot);
    let vis = visible(records, w.entities, catalog, snapshot.step);
    let kept = retained(w.entities, buried, seen, snapshot.step);
    let after = w.ingest(snapshot, catalog);
    lemma_admitted(snapshot.units, buried);
    lemma_retained(w.entities, buried, seen, snapshot.step);
    lemma_ingest_wf(w, snapshot, catalog);
    assert(!death_notices(snapshot).to_set().contains(e.tag));
    assert(!reports(records, e.tag));
    assert(is_retained(e, buried, seen, snapshot.step));
    let p = choose|p: int| 0 <= p < kept.len() && kept[p] == e.as_cached();
    assert(after.entities[vis.len() + p] == e.as_cached());
    lemma_find_at(after.entities, vis.len() + p);
}

/// A cached unit leaves the world when a death notice names it or when the
/// retention horizon has passed.
pub proof fn lemma_cached_leaves(
    w: WorldView,
    snapshot: SnapshotView,
    catalog: Map<u32, Category>,
    j: int,
)
    requires
        w.wf(),
        0 <= j < w.entities.len(),
        !reports(snapshot.units, w.entities[j].tag),
        death_notices(snapshot).contains(w.entities[j].tag) || !within_retention(
            w.entities[j].last_seen,
            snapshot.step,
        ),
    ensures
        !w.ingest(snapshot, catalog).contains(w.entities[j].tag),
{
    let tag = w.entities[j].tag;
    lemma_ingest_contains(w, snapshot, catalog, tag);
    if death_notices(snapshot).contains(tag) {
        assert(death_notices(snapshot).to_set().contains(tag));
    }
    assert forall|k: int| 0 <= k < w.entities.len() && (#[trigger] w.entities[k]).tag
        == tag implies k == j by {
        if k < j {
            assert(w.entities[k].tag != w.entities[j].tag);
        } else if j < k {
            assert(w.entities[j].tag != w.entities[k].tag);
        }
    }
}

} // verus!
