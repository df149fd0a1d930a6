//! Units: the raw records that the engine reports, the canonical entities
//! that the world model keeps, and the normalizer that turns one into the
//! other.

use vstd::prelude::*;
use std::collections::HashMap;

verus! {

broadcast use vstd::std_specs::hash::group_hash_axioms;

/// The engine's number for a unit of the agent.
pub const ALLIANCE_SELF: u32 = 1;

/// The engine's number for a unit of an ally of the agent.
pub const ALLIANCE_ALLY: u32 = 2;

/// The engine's number for a unit that belongs to no player.
pub const ALLIANCE_NEUTRAL: u32 = 3;

/// The engine's number for a unit of the opponent.
pub const ALLIANCE_ENEMY: u32 = 4;

/// A place on the map, in fixed-point map coordinates.
#[derive(Debug, Copy, Clone, PartialEq, Eq, Structural)]
pub struct Point2 {
    pub x: i32,
    pub y: i32,
}

/// What an order or an action is aimed at.
#[derive(Debug, Copy, Clone, PartialEq, Eq, Structural)]
pub enum Target {
    /// Nothing: the ability needs no target.
    Nothing,
    /// A place on the map.
    Pos(Point2),
    /// Another unit, by its tag.
    Tag(u64),
}

/// One entry of a unit's order queue.
#[derive(Debug, Copy, Clone, PartialEq, Eq, Structural)]
pub struct Order {
    /// The ability that the unit is using.
    pub ability: u32,
    /// What the ability is aimed at.
    pub target: Target,
}

/// To whom an entity belongs.
#[derive(Debug, Copy, Clone, PartialEq, Eq, Structural)]
pub enum Owner {
    /// The agent.
    Mine,
    /// The opponent.
    Opponent,
    /// Nobody, or a player that is neither the agent nor its opponent.
    Neutral,
}

/// What kind of thing a unit type is.
#[derive(Debug, Copy, Clone, PartialEq, Eq, Structural)]
pub enum Category {
    /// A type that the catalog does not know, or a malformed record.
    Unclassified,
    /// A structure that is ordered but whose construction has not started.
    Placeholder,
    /// A structure that is neither a townhall nor a gas building.
    Structure,
    /// A structure that workers bring resources to.
    Townhall,
    /// A structure on a geyser, used to gather gas.
    GasBuilding,
    /// A unit that gathers resources and builds structures.
    Worker,
    /// A larva, from which most zerg units are morphed.
    Larva,
    /// Any other unit that moves and fights.
    Army,
    /// A mineral field.
    MineralField,
    /// A vespene geyser.
    VespeneGeyser,
}

impl Category {
    /// Whether a category is one of real structures: a placeholder is none.
    pub open spec fn is_structure(self) -> bool {
        self == Category::Structure || self == Category::Townhall || self
            == Category::GasBuilding
    }

    /// Whether a category is one of resources.
    pub open spec fn is_resource(self) -> bool {
        self == Category::MineralField || self == Category::VespeneGeyser
    }

    /// Whether this is a category of real structures.
    pub fn structure(self) -> (b: bool)
        ensures
            b == self.is_structure(),
    {
        matches!(self, Category::Structure | Category::Townhall | Category::GasBuilding)
    }

    /// Whether this is a category of resources.
    pub fn resource(self) -> (b: bool)
        ensures
            b == self.is_resource(),
    {
        matches!(self, Category::MineralField | Category::VespeneGeyser)
    }
}

/// Where a structure of the agent stands in its construction.
#[derive(Debug, Copy, Clone, PartialEq, Eq, Structural)]
pub enum Phase {
    /// Not a structure of the agent: nothing to track.
    Untracked,
    /// Ordered: a placeholder stands where the structure will be.
    Ordered,
    /// Started: the placeholder has just become a structure under construction.
    Started,
    /// In progress: a structure under construction, seen as such before or
    /// first seen as such.
    InProgress,
    /// Complete: a structure that is not under construction.
    Complete,
}

/// One unit as the engine reports it in a snapshot.
#[derive(Debug)]
pub struct RawUnit {
    /// The identity of the unit, stable over its lifetime.
    pub tag: u64,
    /// The engine's number for the type of the unit.
    pub unit_type: u32,
    /// The engine's number for the side that the unit is on.
    pub alliance: u32,
    pub position: Point2,
    pub health: u32,
    pub health_max: u32,
    pub shield: u32,
    /// The orders that the unit is carrying out, the current one first.
    pub orders: Vec<Order>,
    pub under_construction: bool,
    pub cloaked: bool,
    pub flying: bool,
    /// Set where the engine marks the unit as destroyed in this step.
    pub dead: bool,
}

/// What a [`RawUnit`] holds.
pub struct RawUnitView {
    pub tag: u64,
    pub unit_type: u32,
    pub alliance: u32,
    pub position: Point2,
    pub health: u32,
    pub health_max: u32,
    pub shield: u32,
    pub orders: Seq<Order>,
    pub under_construction: bool,
    pub cloaked: bool,
    pub flying: bool,
    pub dead: bool,
}

impl View for RawUnit {
    type V = RawUnitView;

    open spec fn view(&self) -> RawUnitView {
        RawUnitView {
            tag: self.tag,
            unit_type: self.unit_type,
            alliance: self.alliance,
            position: self.position,
            health: self.health,
            health_max: self.health_max,
            shield: self.shield,
            orders: self.orders@,
            under_construction: self.under_construction,
            cloaked: self.cloaked,
            flying: self.flying,
            dead: self.dead,
        }
    }
}

/// One unit as the world model keeps it.
#[derive(Debug)]
pub struct Entity {
    /// The identity of the unit, stable over its lifetime.
    pub tag: u64,
    /// The engine's number for the type of the unit.
    pub unit_type: u32,
    /// What kind of thing the type is.
    pub category: Category,
    pub owner: Owner,
    pub position: Point2,
    pub health: u32,
    pub health_max: u32,
    pub shield: u32,
    /// The orders that the unit is carrying out, the current one first.
    pub orders: Vec<Order>,
    pub under_construction: bool,
    pub cloaked: bool,
    pub flying: bool,
    /// The step of the last snapshot that reported the unit.
    pub last_seen: u32,
    /// Where the unit stands in its construction.
    pub phase: Phase,
    /// Set for a unit that the current snapshot does not report and that is
    /// kept with what was last known of it.
    pub cached: bool,
}

/// What an [`Entity`] holds.
pub struct EntityView {
    pub tag: u64,
    pub unit_type: u32,
    pub category: Category,
    pub owner: Owner,
    pub position: Point2,
    pub health: u32,
    pub health_max: u32,
    pub shield: u32,
    pub orders: Seq<Order>,
    pub under_construction: bool,
    pub cloaked: bool,
    pub flying: bool,
    pub last_seen: u32,
    pub phase: Phase,
    pub cached: bool,
}

impl View for Entity {
    type V = EntityView;

    open spec fn view(&self) -> EntityView {
        EntityView {
            tag: self.tag,
            unit_type: self.unit_type,
            category: self.category,
            owner: self.owner,
            position: self.position,
            health: self.health,
            health_max: self.health_max,
            shield: self.shield,
            orders: self.orders@,
            under_construction: self.under_construction,
            cloaked: self.cloaked,
            flying: self.flying,
            last_seen: self.last_seen,
            phase: self.phase,
            cached: self.cached,
        }
    }
}

impl EntityView {
    /// The entity as it is kept once it has left vision: everything as it
    /// was last known, marked as cached.
    pub open spec fn as_cached(self) -> EntityView {
        EntityView { cached: true, ..self }
    }

    /// The entity with another construction phase.
    pub open spec fn with_phase(self, phase: Phase) -> EntityView {
        EntityView { phase, ..self }
    }

    /// Whether the unit has no order to carry out.
    pub open spec fn is_idle(self) -> bool {
        self.orders.len() == 0
    }
}

/// The owner that an alliance number stands for. The numbers of allies and
/// of no player, and numbers that the engine does not define, all read as
/// neutral.
pub open spec fn owner_of(alliance: u32) -> Owner {
    if alliance == ALLIANCE_SELF {
        Owner::Mine
    } else if alliance == ALLIANCE_ENEMY {
        Owner::Opponent
    } else {
        Owner::Neutral
    }
}

/// Whether an alliance number is one that the engine defines.
pub open spec fn known_alliance(alliance: u32) -> bool {
    ALLIANCE_SELF <= alliance <= ALLIANCE_ENEMY
}

/// The category of a unit type under a catalog: what the catalog says, and
/// `Unclassified` for a type that it does not hold.
pub open spec fn category_in(catalog: Map<u32, Category>, unit_type: u32) -> Category {
    if catalog.contains_key(unit_type) {
        catalog[unit_type]
    } else {
        Category::Unclassified
    }
}

/// The construction phase of a unit, from the phase it was in when it was
/// last seen and from what is seen of it now. Only what the agent owns is
/// tracked. A placeholder is ordered. A structure under construction has
/// started if it was a placeholder the last time, and is in progress
/// otherwise. A structure that is not under construction is complete.
pub open spec fn next_phase(
    previous: Phase,
    owner: Owner,
    category: Category,
    under_construction: bool,
) -> Phase {
    if owner != Owner::Mine {
        Phase::Untracked
    } else if category == Category::Placeholder {
        Phase::Ordered
    } else if category.is_structure() {
        if !under_construction {
            Phase::Complete
        } else if previous == Phase::Ordered {
            Phase::Started
        } else {
            Phase::InProgress
        }
    } else {
        Phase::Untracked
    }
}

/// The construction phase of a unit that was not seen before.
pub open spec fn first_phase(owner: Owner, category: Category, under_construction: bool) -> Phase {
    next_phase(Phase::Untracked, owner, category, under_construction)
}

/// The canonical entity for one raw record, seen at `step`. A record with an
/// alliance number that the engine does not define is malformed: it is kept,
/// as a neutral entity of no known category. The construction phase is that
/// of a unit without a past.
pub open spec fn normalize_spec(raw: RawUnitView, catalog: Map<u32, Category>, step: u32)
    -> EntityView {
    let owner = owner_of(raw.alliance);
    let category = if known_alliance(raw.alliance) {
        category_in(catalog, raw.unit_type)
    } else {
        Category::Unclassified
    };
    EntityView {
        tag: raw.tag,
        unit_type: raw.unit_type,
        category,
        owner,
        position: raw.position,
        health: raw.health,
        health_max: raw.health_max,
        shield: raw.shield,
        orders: raw.orders,
        under_construction: raw.under_construction,
        cloaked: raw.cloaked,
        flying: raw.flying,
        last_seen: step,
        phase: first_phase(owner, category, raw.under_construction),
        cached: false,
    }
}

/// The table that says what kind of thing each unit type is. It is filled
/// once, from the engine's data, and read by the normalizer.
pub struct Catalog {
    categories: HashMap<u32, Category>,
}

impl View for Catalog {
    type V = Map<u32, Category>;

    closed spec fn view(&self) -> Map<u32, Category> {
        self.categories@
    }
}

impl Catalog {
    /// A catalog that knows no type.
    pub fn new() -> (c: Catalog)
        ensures
            c@ == Map::<u32, Category>::empty(),
    {
        Catalog { categories: HashMap::new() }
    }

    /// Records the category of a unit type, in place of what was recorded
    /// for it before.
    pub fn register(&mut self, unit_type: u32, category: Category)
        ensures
            final(self)@ == old(self)@.insert(unit_type, category),
    {
        self.categories.insert(unit_type, category);
    }

    /// The category of a unit type; `Unclassified` where none is recorded.
    pub fn category_of(&self, unit_type: u32) -> (c: Category)
        ensures
            c == category_in(self@, unit_type),
    {
        match self.categories.get(&unit_type) {
            Some(c) => *c,
            None => Category::Unclassified,
        }
    }
}

/// A copy of an order queue.
pub fn copy_orders(orders: &Vec<Order>) -> (copy: Vec<Order>)
    ensures
        copy@ == orders@,
{
    let mut copy: Vec<Order> = Vec::new();
    let n = orders.len();
    let mut i: usize = 0;
    while i < n
        invariant
            i <= n,
            n == orders@.len(),
            copy@ == orders@.take(i as int),
        decreases n - i,
    {
        copy.push(orders[i]);
        i = i + 1;
    }
    proof {
        assert(orders@.take(n as int) == orders@);
    }
    copy
}

/// Moves the construction tracker of one unit on by one observation.
pub fn advance_phase(previous: Phase, owner: Owner, category: Category, under_construction: bool)
    -> (p: Phase)
    ensures
        p == next_phase(previous, owner, category, under_construction),
{
    if !matches!(owner, Owner::Mine) {
        Phase::Untracked
    } else if matches!(category, Category::Placeholder) {
        Phase::Ordered
    } else if category.structure() {
        if !under_construction {
            Phase::Complete
        } else if matches!(previous, Phase::Ordered) {
            Phase::Started
        } else {
            Phase::InProgress
        }
    } else {
        Phase::Untracked
    }
}

/// Turns one raw record into a canonical entity. Nothing is rejected: a type
/// that the catalog does not hold, and a record with an alliance number that
/// the engine does not define, give an entity of category `Unclassified`.
pub fn normalize(raw: &RawUnit, catalog: &Catalog, step: u32) -> (e: Entity)
    ensures
        e@ == normalize_spec(raw@, catalog@, step),
{
    let owner = if raw.alliance == ALLIANCE_SELF {
        Owner::Mine
    } else if raw.alliance == ALLIANCE_ENEMY {
        Owner::Opponent
    } else {
        Owner::Neutral
    };
    let category = if ALLIANCE_SELF <= raw.alliance && raw.alliance <= ALLIANCE_ENEMY {
        catalog.category_of(raw.unit_type)
    } else {
        Category::Unclassified
    };
    Entity {
        tag: raw.tag,
        unit_type: raw.unit_type,
        category,
        owner,
        position: raw.position,
        health: raw.health,
        health_max: raw.health_max,
        shield: raw.shield,
        orders: copy_orders(&raw.orders),
        under_construction: raw.under_construction,
        cloaked: raw.cloaked,
        flying: raw.flying,
        last_seen: step,
        phase: advance_phase(Phase::Untracked, owner, category, raw.under_construction),
        cached: false,
    }
}

impl Entity {
    /// A copy of the entity.
    pub fn duplicate(&self) -> (e: Entity)
        ensures
            e@ == self@,
    {
        Entity {
            tag: self.tag,
            unit_type: self.unit_type,
            category: self.category,
            owner: self.owner,
            position: self.position,
            health: self.health,
            health_max: self.health_max,
            shield: self.shield,
            orders: copy_orders(&self.orders),
            under_construction: self.under_construction,
            cloaked: self.cloaked,
            flying: self.flying,
            last_seen: self.last_seen,
            phase: self.phase,
            cached: self.cached,
        }
    }

    /// Whether the unit has no order to carry out.
    pub fn is_idle(&self) -> (b: bool)
        ensures
            b == self@.is_idle(),
    {
        self.orders.len() == 0
    }

    /// Whether the unit is a real structure.
    pub fn is_structure(&self) -> (b: bool)
        ensures
            b == self@.category.is_structure(),
    {
        self.category.structure()
    }
}

} // verus!
