//! The action batcher.
//!
//! During a step the agent asks for actions: an ability, the units that are
//! to use it, and a target. The engine takes one order for many units, so
//! requests with the same ability and the same target are merged into one
//! command. Merging changes how the orders are written down, never which
//! orders are given: a unit is to use an ability on a target after batching
//! exactly when some request asked for it.

use vstd::prelude::*;
use crate::unit::{Target};

verus! {

/// One order for the engine: an ability, its target, and the units that are
/// to use it.
#[derive(Debug)]
pub struct Command {
    pub ability: u32,
    pub target: Target,
    /// The tags of the units that the order goes to, each once, in the order
    /// in which they were first named.
    pub issuers: Vec<u64>,
}

/// What a [`Command`] holds.
pub struct CommandView {
    pub ability: u32,
    pub target: Target,
    pub issuers: Seq<u64>,
}

impl View for Command {
    type V = CommandView;

    open spec fn view(&self) -> CommandView {
        CommandView { ability: self.ability, target: self.target, issuers: self.issuers@ }
    }
}

/// One order as one unit receives it.
pub struct UnitOrder {
    pub ability: u32,
    pub target: Target,
    pub issuer: u64,
}

/// Whether some command of a batch list is for an ability and a target.
pub open spec fn has_key(batches: Seq<CommandView>, ability: u32, target: Target) -> bool {
    exists|i: int|
        0 <= i < batches.len() && (#[trigger] batches[i]).ability == ability && batches[i].target
            == target
}

/// The place of a command for an ability and a target, where there is one.
pub open spec fn key_index(batches: Seq<CommandView>, ability: u32, target: Target) -> int {
    choose|i: int|
        0 <= i < batches.len() && (#[trigger] batches[i]).ability == ability && batches[i].target
            == target
}

/// The batch list after one unit is asked to use an ability on a target. If
/// a command for that ability and target exists, the unit joins it, unless
/// it is in it already. Otherwise a new command is added at the end.
pub open spec fn add_issuer(batches: Seq<CommandView>, ability: u32, target: Target, issuer: u64)
    -> Seq<CommandView> {
    if has_key(batches, ability, target) {
        let i = key_index(batches, ability, target);
        if batches[i].issuers.contains(issuer) {
            batches
        } else {
            batches.update(
                i,
                CommandView { ability, target, issuers: batches[i].issuers.push(issuer) },
            )
        }
    } else {
        batches.push(CommandView { ability, target, issuers: seq![issuer] })
    }
}

/// The batch list after a request: each unit of the request is added in
/// turn. A request that names no unit changes nothing.
pub open spec fn add_request(
    batches: Seq<CommandView>,
    ability: u32,
    target: Target,
    issuers: Seq<u64>,
) -> Seq<CommandView>
    decreases issuers.len(),
{
    if issuers.len() == 0 {
        batches
    } else {
        add_issuer(add_request(batches, ability, target, issuers.drop_last()), ability, target,
            issuers.last())
    }
}

/// Whether a batch list gives an order to a unit.
pub open spec fn gives(batches: Seq<CommandView>, order: UnitOrder) -> bool {
    exists|i: int|
        0 <= i < batches.len() && (#[trigger] batches[i]).ability == order.ability
            && batches[i].target == order.target && batches[i].issuers.contains(order.issuer)
}

/// A batch list is well formed when no two commands share ability and
/// target, and every command names at least one unit and none twice.
pub open spec fn batches_wf(batches: Seq<CommandView>) -> bool {
    &&& forall|i: int, j: int|
        0 <= i < j < batches.len() ==> !((#[trigger] batches[i]).ability == (
        #[trigger] batches[j]).ability && batches[i].target == batches[j].target)
    &&& forall|i: int|
        0 <= i < batches.len() ==> (#[trigger] batches[i]).issuers.len() > 0
            && batches[i].issuers.no_duplicates()
}

/// Adding a unit keeps a batch list well formed. The list then gives the
/// orders that it gave before and the one that was added, and no other.
/// Commands that were there stay where they were, with the units they had
/// in front.
pub proof fn lemma_add_issuer(batches: Seq<CommandView>, ability: u32, target: Target, issuer: u64)
    requires
        batches_wf(batches),
    ensures
        batches_wf(add_issuer(batches, ability, target, issuer)),
        forall|order: UnitOrder|
            #[trigger] gives(add_issuer(batches, ability, target, issuer), order) <==> (gives(
                batches,
                order,
            )
                || order == (UnitOrder { ability, target, issuer })),
        batches.len() <= add_issuer(batches, ability, target, issuer).len(),
        forall|i: int|
            0 <= i < batches.len() ==> {
                let after = #[trigger] add_issuer(batches, ability, target, issuer)[i];
                &&& after.ability == batches[i].ability
                &&& after.target == batches[i].target
                &&& batches[i].issuers.is_prefix_of(after.issuers)
            },
{
    let out = add_issuer(batches, ability, target, issuer);
    let added = UnitOrder { ability, target, issuer };
    if has_key(batches, ability, target) {
        let k = key_index(batches, ability, target);
        if batches[k].issuers.contains(issuer) {
            assert(gives(batches, added));
        } else {
            let grown = batches[k].issuers.push(issuer);
            assert(grown.no_duplicates()) by {
                assert forall|a: int, b: int| 0 <= a < b < grown.len() implies grown[a]
                    != grown[b] by {
                    if b == grown.len() - 1 {
                        assert(batches[k].issuers[a] == grown[a]);
                    }
                }
            }
            assert(grown[grown.len() - 1] == issuer);
            assert(out[k].issuers.contains(issuer));
            assert forall|order: UnitOrder| gives(out, order) <==> (gives(batches, order) || order
                == added) by {
                if gives(out, order) {
                    let i = choose|i: int|
                        0 <= i < out.len() && (#[trigger] out[i]).ability == order.ability
                            && out[i].target == order.target && out[i].issuers.contains(
                            order.issuer,
                        );
                    if i == k {
                        let p = choose|p: int| 0 <= p < grown.len() && grown[p] == order.issuer;
                        if p < batches[k].issuers.len() {
                            assert(batches[k].issuers[p] == order.issuer);
                            assert(gives(batches, order));
                        }
                    } else {
                        assert(batches[i] == out[i]);
                        assert(gives(batches, order));
                    }
                }
                if gives(batches, order) {
                    let i = choose|i: int|
                        0 <= i < batches.len() && (#[trigger] batches[i]).ability == order.ability
                            && batches[i].target == order.target && batches[i].issuers.contains(
                            order.issuer,
                        );
                    if i == k {
                        let p = choose|p: int|
                            0 <= p < batches[k].issuers.len() && batches[k].issuers[p]
                                == order.issuer;
                        assert(grown[p] == order.issuer);
                    }
                    assert(out[i].issuers.contains(order.issuer));
                }
                if order == added {
                    assert(out[k].issuers.contains(order.issuer));
                }
            }
        }
    } else {
        let last = CommandView { ability, target, issuers: seq![issuer] };
        assert(out[batches.len() as int] == last);
        assert(last.issuers[0] == issuer);
        assert(last.issuers.contains(issuer));
        assert forall|order: UnitOrder| gives(out, order) <==> (gives(batches, order) || order
            == added) by {
            if gives(out, order) {
                let i = choose|i: int|
                    0 <= i < out.len() && (#[trigger] out[i]).ability == order.ability
                        && out[i].target == order.target && out[i].issuers.contains(order.issuer);
                if i < batches.len() {
                    assert(batches[i] == out[i]);
                    assert(gives(batches, order));
                }
            }
            if gives(batches, order) {
                let i = choose|i: int|
                    0 <= i < batches.len() && (#[trigger] batches[i]).ability == order.ability
                        && batches[i].target == order.target && batches[i].issuers.contains(
                        order.issuer,
                    );
                assert(out[i] == batches[i]);
            }
        }
    }
}

/// Batching changes how orders are written down, not which orders are
/// given: after a request, the list gives an order exactly when it gave it
/// before or the request asked for it. The list stays well formed, and no
/// command that was there changes its place, its ability or its target.
pub proof fn lemma_add_request(
    batches: Seq<CommandView>,
    ability: u32,
    target: Target,
    issuers: Seq<u64>,
)
    requires
        batches_wf(batches),
    ensures
        batches_wf(add_request(batches, ability, target, issuers)),
        forall|order: UnitOrder|
            #[trigger] gives(add_request(batches, ability, target, issuers), order) <==> (gives(
                batches,
                order,
            ) || (order.ability == ability && order.target == target && issuers.contains(
                order.issuer,
            ))),
        batches.len() <= add_request(batches, ability, target, issuers).len(),
        forall|i: int|
            0 <= i < batches.len() ==> {
                let after = #[trigger] add_request(batches, ability, target, issuers)[i];
                &&& after.ability == batches[i].ability
                &&& after.target == batches[i].target
                &&& batches[i].issuers.is_prefix_of(after.issuers)
            },
    decreases issuers.len(),
{
    if issuers.len() > 0 {
        let front = issuers.drop_last();
        let mid = add_request(batches, ability, target, front);
        let out = add_request(batches, ability, target, issuers);
        lemma_add_request(batches, ability, target, front);
        lemma_add_issuer(mid, ability, target, issuers.last());
        let last = UnitOrder { ability, target, issuer: issuers.last() };
        assert forall|order: UnitOrder| gives(out, order) <==> (gives(batches, order) || (
        order.ability == ability && order.target == target && issuers.contains(
            order.issuer,
        ))) by {
            assert(gives(out, order) <==> (gives(mid, order) || order == last));
            assert(gives(mid, order) <==> (gives(batches, order) || (order.ability == ability
                && order.target == target && front.contains(order.issuer))));
            assert(issuers.contains(order.issuer) <==> (front.contains(order.issuer)
                || order.issuer == issuers.last())) by {
                if issuers.contains(order.issuer) {
                    let p = choose|p: int| 0 <= p < issuers.len() && issuers[p] == order.issuer;
                    if p < front.len() {
                        assert(front[p] == order.issuer);
                    }
                }
                if front.contains(order.issuer) {
                    let p = choose|p: int| 0 <= p < front.len() && front[p] == order.issuer;
                    assert(issuers[p] == order.issuer);
                }
                assert(issuers[issuers.len() - 1] == issuers.last());
            }
        }
        assert forall|i: int| 0 <= i < batches.len() implies {
            let after = #[trigger] out[i];
            &&& after.ability == batches[i].ability
            &&& after.target == batches[i].target
            &&& batches[i].issuers.is_prefix_of(after.issuers)
        } by {
            let m = mid[i];
            let after = out[i];
            assert(batches[i].issuers.is_prefix_of(m.issuers));
            assert(m.issuers.is_prefix_of(after.issuers));
            assert(batches[i].issuers =~= after.issuers.subrange(
                0,
                batches[i].issuers.len() as int,
            )) by {
                assert(m.issuers =~= after.issuers.subrange(0, m.issuers.len() as int));
                assert(batches[i].issuers =~= m.issuers.subrange(
                    0,
                    batches[i].issuers.len() as int,
                ));
            }
        }
    }
}

/// The views of a list of commands.
pub open spec fn views(commands: Seq<Command>) -> Seq<CommandView> {
    commands.map_values(|c: Command| c@)
}

/// Collects the actions that the agent asks for during one step.
pub struct Batcher {
    batches: Vec<Command>,
}

impl View for Batcher {
    type V = Seq<CommandView>;

    closed spec fn view(&self) -> Seq<CommandView> {
        views(self.batches@)
    }
}

impl Batcher {
    /// The invariant of a batcher: its batch list is well formed.
    pub open spec fn wf(&self) -> bool {
        batches_wf(self@)
    }

    /// A batcher that holds no command.
    pub fn new() -> (b: Batcher)
        ensures
            b.wf(),
            b@ == Seq::<CommandView>::empty(),
    {
        let b = Batcher { batches: Vec::new() };
        proof {
            assert(b@ =~= Seq::<CommandView>::empty());
        }
        b
    }

    /// The number of commands that the batcher holds.
    pub fn len(&self) -> (n: usize)
        ensures
            n == self@.len(),
    {
        self.batches.len()
    }

    /// Takes in one request: the units named by `issuers` are to use
    /// `ability` on `target`.
    pub fn issue(&mut self, ability: u32, issuers: &Vec<u64>, target: Target)
        requires
            old(self).wf(),
        ensures
            final(self).wf(),
            final(self)@ == add_request(old(self)@, ability, target, issuers@),
    {
        let n = issuers.len();
        let mut i: usize = 0;
        while i < n
            invariant
                i <= n,
                n == issuers@.len(),
                self.wf(),
                self@ == add_request(old(self)@, ability, target, issuers@.take(i as int)),
            decreases n - i,
        {
            proof {
                assert(issuers@.take(i + 1).drop_last() == issuers@.take(i as int));
            }
            self.issue_one(ability, issuers[i], target);
            i = i + 1;
        }
        proof {
            assert(issuers@.take(n as int) == issuers@);
        }
    }

    /// Takes in a request for one unit.
    pub fn issue_one(&mut self, ability: u32, issuer: u64, target: Target)
        requires
            old(self).wf(),
        ensures
            final(self).wf(),
            final(self)@ == add_issuer(old(self)@, ability, target, issuer),
    {
        proof {
            lemma_add_issuer(self@, ability, target, issuer);
        }
        let n = self.batches.len();
        let mut k: usize = 0;
        while k < n && !(self.batches[k].ability == ability && self.batches[k].target == target)
            invariant
                k <= n,
                n == self.batches@.len(),
                self.batches@ == old(self).batches@,
                forall|j: int|
                    0 <= j < k ==> !((#[trigger] self@[j]).ability == ability && self@[j].target
                        == target),
            decreases n - k,
        {
            k = k + 1;
        }
        if k < n {
            proof {
                assert(self@[k as int] == self.batches@[k as int]@);
                assert(has_key(self@, ability, target));
                assert(key_index(self@, ability, target) == k);
            }
            let m = self.batches[k].issuers.len();
            let mut p: usize = 0;
            while p < m && self.batches[k].issuers[p] != issuer
                invariant
                    p <= m,
                    k < self.batches@.len(),
                    m == self.batches@[k as int].issuers@.len(),
                    self.batches@ == old(self).batches@,
                    forall|q: int| 0 <= q < p ==> self.batches@[k as int].issuers@[q] != issuer,
                decreases m - p,
            {
                p = p + 1;
            }
            if p == m {
                proof {
                    assert(!self@[k as int].issuers.contains(issuer));
                }
                self.batches[k].issuers.push(issuer);
                proof {
                    assert(self@ =~= add_issuer(old(self)@, ability, target, issuer));
                }
            } else {
                proof {
                    assert(self@[k as int].issuers[p as int] == issuer);
                }
            }
        } else {
            proof {
                assert(!has_key(self@, ability, target));
            }
            let mut issuers: Vec<u64> = Vec::new();
            issuers.push(issuer);
            self.batches.push(Command { ability, target, issuers });
            proof {
                assert(self@ =~= add_issuer(old(self)@, ability, target, issuer));
            }
        }
    }

    /// Hands out the commands of the step, in the order in which their
    /// abilities and targets were first asked for, and starts over.
    pub fn flush(&mut self) -> (commands: Vec<Command>)
        ensures
            views(commands@) == old(self)@,
            final(self)@ == Seq::<CommandView>::empty(),
            final(self).wf(),
    {
        let mut commands: Vec<Command> = Vec::new();
        std::mem::swap(&mut commands, &mut self.batches);
        proof {
            assert(self@ =~= Seq::<CommandView>::empty());
        }
        commands
    }
}

} // verus!
