//! The event deriver.
//!
//! The engine reports what is, not what happened. The events of a step are
//! derived from the difference between two snapshots and handed to the agent
//! in a fixed order: destructions, then creations, then construction
//! transitions, then the reveal of the opponent's race. The order does not
//! depend on the order in which the engine reports anything.

use vstd::prelude::*;
use crate::Event;
use crate::player::Race;
use crate::unit::Phase;

verus! {

/// A step of a structure's construction that the agent is told about.
#[derive(Debug, Copy, Clone, PartialEq, Eq, Structural)]
pub enum Transition {
    /// A placeholder of the agent has become a real structure.
    Started(u64),
    /// A structure of the agent is no longer under construction.
    Complete(u64),
}

/// What the differ found between the world of the last step and a snapshot.
#[derive(Debug)]
pub struct Diff {
    /// The identities that were destroyed, each once.
    pub destroyed: Vec<u64>,
    /// The identities that the world did not hold before.
    pub created: Vec<u64>,
    /// The construction transitions of structures that the world held before.
    pub construction: Vec<Transition>,
}

/// What a [`Diff`] holds.
pub struct DiffView {
    pub destroyed: Seq<u64>,
    pub created: Seq<u64>,
    pub construction: Seq<Transition>,
}

impl View for Diff {
    type V = DiffView;

    open spec fn view(&self) -> DiffView {
        DiffView {
            destroyed: self.destroyed@,
            created: self.created@,
            construction: self.construction@,
        }
    }
}

/// The transition that the agent is told about when the construction phase
/// of a unit goes from `previous` to `now`: a start when an ordered
/// structure has become real, a completion when a structure that was under
/// construction is complete, and nothing otherwise.
pub open spec fn transition_of(tag: u64, previous: Phase, now: Phase) -> Option<Transition> {
    if previous == Phase::Ordered && (now == Phase::Started || now == Phase::InProgress || now
        == Phase::Complete) {
        Some(Transition::Started(tag))
    } else if (previous == Phase::Started || previous == Phase::InProgress) && now
        == Phase::Complete {
        Some(Transition::Complete(tag))
    } else {
        None
    }
}

/// The event that tells of a transition.
pub open spec fn transition_event(transition: Transition) -> Event {
    match transition {
        Transition::Started(tag) => Event::ConstructionStarted(tag),
        Transition::Complete(tag) => Event::ConstructionComplete(tag),
    }
}

/// The race that a snapshot reveals: the race that the snapshot's number
/// stands for, if it is a concrete race and none was known before.
pub open spec fn reveal_of(known: Race, code: u32) -> Option<Race> {
    if known == Race::Random && Race::of_code(code) != Race::Random {
        Some(Race::of_code(code))
    } else {
        None
    }
}

/// The events of a step, in the order in which the agent receives them.
pub open spec fn events_of(diff: DiffView, revealed: Option<Race>) -> Seq<Event> {
    diff.destroyed.map_values(|tag: u64| Event::UnitDestroyed(tag)) + diff.created.map_values(
        |tag: u64| Event::UnitCreated(tag),
    ) + diff.construction.map_values(|t: Transition| transition_event(t)) + match revealed {
        Some(race) => seq![Event::RandomRaceDetected(race)],
        None => Seq::empty(),
    }
}

/// The place of an event's kind in the order of a step.
pub open spec fn rank(event: Event) -> int {
    match event {
        Event::UnitDestroyed(_) => 0,
        Event::UnitCreated(_) => 1,
        Event::ConstructionStarted(_) => 2,
        Event::ConstructionComplete(_) => 2,
        Event::RandomRaceDetected(_) => 3,
    }
}

/// Whether a sequence of events keeps the order of a step: no event stands
/// before an event of an earlier kind.
pub open spec fn in_order(events: Seq<Event>) -> bool {
    forall|i: int, j: int|
        0 <= i <= j < events.len() ==> rank(#[trigger] events[i]) <= rank(#[trigger] events[j])
}

/// The events of a step always come in the same order: destructions,
/// creations, construction transitions, race reveal. At most one reveal
/// is among them.
pub proof fn lemma_events_in_order(diff: DiffView, revealed: Option<Race>)
    ensures
        in_order(events_of(diff, revealed)),
        events_of(diff, revealed).len() == diff.destroyed.len() + diff.created.len()
            + diff.construction.len() + if revealed is Some {
            1int
        } else {
            0int
        },
{
    let events = events_of(diff, revealed);
    let a = diff.destroyed.len() as int;
    let b = a + diff.created.len();
    let c = b + diff.construction.len();
    assert forall|i: int| 0 <= i < events.len() implies rank(#[trigger] events[i]) == if i < a {
        0int
    } else if i < b {
        1int
    } else if i < c {
        2int
    } else {
        3int
    } by {
        if i < a {
            assert(events[i] == Event::UnitDestroyed(diff.destroyed[i]));
        } else if i < b {
            assert(events[i] == Event::UnitCreated(diff.created[i - a]));
        } else if i < c {
            assert(events[i] == transition_event(diff.construction[i - b]));
        } else {
            assert(events[i] == Event::RandomRaceDetected(revealed->0));
        }
    }
}

/// Tells which transition, if any, the agent is told about.
pub fn construction_transition(tag: u64, previous: Phase, now: Phase) -> (t: Option<Transition>)
    ensures
        t == transition_of(tag, previous, now),
{
    match previous {
        Phase::Ordered => match now {
            Phase::Started | Phase::InProgress | Phase::Complete => Some(Transition::Started(tag)),
            _ => None,
        },
        Phase::Started | Phase::InProgress => match now {
            Phase::Complete => Some(Transition::Complete(tag)),
            _ => None,
        },
        _ => None,
    }
}

/// Tells whether a snapshot reveals the opponent's race: `known` is the
/// race known so far, `code` the number that the snapshot holds.
pub fn detect_race(known: Race, code: u32) -> (revealed: Option<Race>)
    ensures
        revealed == reveal_of(known, code),
{
    let seen = Race::from_code(code);
    if known.is_random() && !seen.is_random() {
        Some(seen)
    } else {
        None
    }
}

/// Puts the events of a step in their order.
pub fn derive_events(diff: &Diff, revealed: Option<Race>) -> (events: Vec<Event>)
    ensures
        events@ == events_of(diff@, revealed),
        in_order(events@),
{
    let mut events: Vec<Event> = Vec::new();
    let ghost destroyed = diff.destroyed@.map_values(|tag: u64| Event::UnitDestroyed(tag));
    let ghost created = diff.created@.map_values(|tag: u64| Event::UnitCreated(tag));
    let ghost construction = diff.construction@.map_values(|t: Transition| transition_event(t));
    let mut i: usize = 0;
    while i < diff.destroyed.len()
        invariant
            i <= diff.destroyed@.len(),
            destroyed == diff.destroyed@.map_values(|tag: u64| Event::UnitDestroyed(tag)),
            events@ == destroyed.take(i as int),
        decreases diff.destroyed@.len() - i,
    {
        events.push(Event::UnitDestroyed(diff.destroyed[i]));
        i = i + 1;
    }
    proof {
        assert(destroyed.take(i as int) == destroyed);
    }
    let mut i: usize = 0;
    while i < diff.created.len()
        invariant
            i <= diff.created@.len(),
            created == diff.created@.map_values(|tag: u64| Event::UnitCreated(tag)),
            events@ == destroyed + created.take(i as int),
        decreases diff.created@.len() - i,
    {
        events.push(Event::UnitCreated(diff.created[i]));
        i = i + 1;
    }
    proof {
        assert(created.take(i as int) == created);
    }
    let mut i: usize = 0;
    while i < diff.construction.len()
        invariant
            i <= diff.construction@.len(),
            construction == diff.construction@.map_values(|t: Transition| transition_event(t)),
            events@ == destroyed + created + construction.take(i as int),
        decreases diff.construction@.len() - i,
    {
        let event = match diff.construction[i] {
            Transition::Started(tag) => Event::ConstructionStarted(tag),
            Transition::Complete(tag) => Event::ConstructionComplete(tag),
        };
        events.push(event);
        i = i + 1;
    }
    proof {
        assert(construction.take(i as int) == construction);
    }
    match revealed {
        Some(race) => {
            events.push(Event::RandomRaceDetected(race));
            proof {
                assert(events@ == destroyed + created + construction
                    + seq![Event::RandomRaceDetected(race)]);
            }
        },
        None => {
            proof {
                assert(events@ == destroyed + created + construction + Seq::<Event>::empty());
            }
        },
    }
    proof {
        lemma_events_in_order(diff@, revealed);
    }
    events
}

} // verus!
