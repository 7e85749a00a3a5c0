//! The entity registry and the tick scheduler.
//!
//! Each entity is an index into an arena of records owning an inventory and,
//! for crafting-capable entities, a crafter with a speed multiplier. One call
//! of [`Registry::tick`] advances every crafter exactly once by the tick's
//! elapsed time, scaled per entity; completion notifications are appended to
//! an explicit per-tick queue in entity-index order and handed out once by
//! [`Registry::drain_events`]. Lookups by entity index are fallible and
//! return [`CoreError::NotFound`] rather than assuming the entity exists, and
//! every operation that touches two inventories refuses the case where both
//! indices name the same one.

use vstd::prelude::*;

use crate::crafting::{Crafter, advance_rel};
use crate::inventory::Inventory;
use crate::items::{ItemType, stacks_count};
use crate::recipes::{Recipe, same_recipe};

verus! {

/// Why a registry operation could not act.
#[derive(Clone, Copy, PartialEq, Eq, Hash, Debug, Structural)]
pub enum CoreError {
    /// No entity record under the given index, or the entity cannot craft.
    NotFound,
    /// The operation would break a structural rule, such as transferring
    /// between an inventory and itself.
    InvariantViolated,
}

/// A one-shot notification that the crafter of `entity` completed `recipe`.
#[derive(Debug)]
pub struct CraftCompleteEvent {
    pub entity: usize,
    pub recipe: Recipe,
}

/// One entity's record: its inventory and, for crafting-capable entities, a
/// crafter with a speed multiplier.
#[derive(Debug)]
pub struct EntityEntry {
    pub inventory: Inventory,
    pub crafter: Option<Crafter>,
    /// Per-entity crafting speed multiplier applied to each tick's elapsed
    /// time; at least one.
    pub speed: u64,
}

impl EntityEntry {
    pub open spec fn wf(self) -> bool {
        &&& self.inventory.wf()
        &&& match self.crafter {
            Option::Some(c) => c.wf(),
            Option::None => true,
        }
        &&& self.speed >= 1
    }
}

/// The arena of entity records and the per-tick completion queue.
#[derive(Debug)]
pub struct Registry {
    pub entries: Vec<EntityEntry>,
    pub events: Vec<CraftCompleteEvent>,
}

/// The tick's elapsed time under a speed multiplier, saturating at the
/// largest representable value.
pub open spec fn scaled(elapsed: u64, speed: u64) -> u64 {
    if elapsed * speed > u64::MAX {
        u64::MAX
    } else {
        (elapsed * speed) as u64
    }
}

/// Whether the entry's crafter crosses its completion threshold in a tick of
/// `elapsed` time units.
pub open spec fn entry_completes(e: EntityEntry, elapsed: u64) -> bool {
    &&& e.crafter is Some
    &&& e.crafter->Some_0.completes(scaled(elapsed, e.speed))
}

/// How one tick relates an entity record before it (`e0`) to the record
/// after it (`e1`) and the crafter's completion report: a record without a
/// crafter is untouched, and one with a crafter steps by the state machine
/// under the entity's scaled elapsed time.
pub open spec fn entry_step(e0: EntityEntry, elapsed: u64, e1: EntityEntry, ev: Option<
    Recipe,
>) -> bool {
    match e0.crafter {
        Option::None => e1 == e0 && ev is None,
        Option::Some(c0) => {
            &&& e1.crafter is Some
            &&& e1.speed == e0.speed
            &&& advance_rel(
                c0,
                e0.inventory,
                scaled(elapsed, e0.speed),
                e1.crafter->Some_0,
                e1.inventory,
                ev,
            )
        },
    }
}

/// The entry pair is related by one tick under some completion report.
pub open spec fn stepped(e0: EntityEntry, elapsed: u64, e1: EntityEntry) -> bool {
    exists|ev: Option<Recipe>| entry_step(e0, elapsed, e1, ev)
}

/// Room for the outputs the entry would add on completion.
pub open spec fn entry_fits(e: EntityEntry, elapsed: u64) -> bool {
    entry_completes(e, elapsed) ==> forall|t: ItemType|
        e.inventory.count(t) + stacks_count(e.crafter->Some_0.recipe->Some_0.output@, t)
            <= u32::MAX
}

/// Every entry has room for the outputs it would add this tick.
pub open spec fn tick_fits(entries: Seq<EntityEntry>, elapsed: u64) -> bool {
    forall|j: int| 0 <= j < entries.len() ==> entry_fits(#[trigger] entries[j], elapsed)
}

/// The entity indices whose crafters complete in a tick of `elapsed` time
/// units, in ascending order.
pub open spec fn completing_indices(entries: Seq<EntityEntry>, elapsed: u64) -> Seq<int>
    decreases entries.len(),
{
    if entries.len() == 0 {
        Seq::empty()
    } else {
        completing_indices(entries.drop_last(), elapsed) + if entry_completes(
            entries.last(),
            elapsed,
        ) {
            seq![entries.len() - 1]
        } else {
            Seq::empty()
        }
    }
}

impl Registry {
    /// Every entity record is well formed.
    pub open spec fn wf(self) -> bool {
        forall|j: int| 0 <= j < self.entries@.len() ==> (#[trigger] self.entries@[j]).wf()
    }

    /// An empty registry with an empty completion queue.
    pub fn new() -> (r: Registry)
        ensures
            r.wf(),
            r.entries@.len() == 0,
            r.events@.len() == 0,
    {
        Registry { entries: Vec::new(), events: Vec::new() }
    }

    /// The number of entity records.
    pub fn len(&self) -> (r: usize)
        ensures
            r == self.entries@.len(),
    {
        self.entries.len()
    }

    /// Registers an entity record and returns its index.
    pub fn spawn(&mut self, inventory: Inventory, crafter: Option<Crafter>, speed: u64) -> (id:
        usize)
        requires
            old(self).wf(),
            inventory.wf(),
            match crafter {
                Option::Some(c) => c.wf(),
                Option::None => true,
            },
            speed >= 1,
        ensures
            final(self).wf(),
            id == old(self).entries@.len(),
            final(self).entries@ == old(self).entries@.push(
                (EntityEntry { inventory, crafter, speed }),
            ),
            final(self).events@ == old(self).events@,
    {
        let id = self.entries.len();
        self.entries.push(EntityEntry { inventory, crafter, speed });
        id
    }

    /// The inventory of entity `entity`, or `NotFound`.
    pub fn inventory_of(&self, entity: usize) -> (r: Result<&Inventory, CoreError>)
        ensures
            match r {
                Result::Ok(inv) => entity < self.entries@.len() && *inv == self.entries@[
                    entity as int
                ].inventory,
                Result::Err(e) => entity >= self.entries@.len() && e == CoreError::NotFound,
            },
    {
        if entity < self.entries.len() {
            Result::Ok(&self.entries[entity].inventory)
        } else {
            Result::Err(CoreError::NotFound)
        }
    }

    /// The crafter record of entity `entity` (which may be absent on a
    /// non-crafting entity), or `NotFound`.
    pub fn crafter_of(&self, entity: usize) -> (r: Result<&Option<Crafter>, CoreError>)
        ensures
            match r {
                Result::Ok(c) => entity < self.entries@.len() && *c == self.entries@[
                    entity as int
                ].crafter,
                Result::Err(e) => entity >= self.entries@.len() && e == CoreError::NotFound,
            },
    {
        if entity < self.entries.len() {
            Result::Ok(&self.entries[entity].crafter)
        } else {
            Result::Err(CoreError::NotFound)
        }
    }

    /// Advances every crafter exactly once by `elapsed` time units (scaled
    /// per entity) in ascending entity order, appending one completion event
    /// per crossing — in that same order — to the queue.
    pub fn tick(&mut self, elapsed: u64)
        requires
            old(self).wf(),
            tick_fits(old(self).entries@, elapsed),
        ensures
            final(self).wf(),
            final(self).entries@.len() == old(self).entries@.len(),
            forall|j: int|
                0 <= j < old(self).entries@.len() ==> stepped(
                    old(self).entries@[j],
                    elapsed,
                    #[trigger] final(self).entries@[j],
                ),
            final(self).events@.len() == old(self).events@.len() + completing_indices(
                old(self).entries@,
                elapsed,
            ).len(),
            forall|k: int|
                0 <= k < old(self).events@.len() ==> final(self).events@[k] == old(self).events@[k],
            forall|k: int|
                0 <= k < completing_indices(old(self).entries@, elapsed).len()
                    ==> (#[trigger] final(self).events@[old(self).events@.len() + k]).entity
                    == completing_indices(old(self).entries@, elapsed)[k] && same_recipe(
                    final(self).events@[old(self).events@.len() + k].recipe,
                    old(self).entries@[completing_indices(old(self).entries@, elapsed)[k]]
                        .crafter->Some_0.recipe->Some_0,
                ),
    {
        let n = self.entries.len();
        let ghost entries0 = self.entries@;
        let ghost events0 = self.events@;
        let mut j: usize = 0;
        while j < n
            invariant
                0 <= j <= n,
                n == entries0.len(),
                self.entries@.len() == n,
                entries0 == old(self).entries@,
                events0 == old(self).events@,
                tick_fits(entries0, elapsed),
                forall|jj: int| 0 <= jj < entries0.len() ==> (#[trigger] entries0[jj]).wf(),
                forall|jj: int| j <= jj < n ==> self.entries@[jj] == entries0[jj],
                forall|jj: int|
                    0 <= jj < j ==> (#[trigger] self.entries@[jj]).wf() && stepped(
                        entries0[jj],
                        elapsed,
                        self.entries@[jj],
                    ),
                self.events@.len() == events0.len() + completing_indices(
                    entries0.take(j as int),
                    elapsed,
                ).len(),
                forall|k: int| 0 <= k < events0.len() ==> self.events@[k] == events0[k],
                forall|k: int|
                    0 <= k < completing_indices(entries0.take(j as int), elapsed).len()
                        ==> (#[trigger] self.events@[events0.len() + k]).entity
                        == completing_indices(entries0.take(j as int), elapsed)[k] && same_recipe(
                        self.events@[events0.len() + k].recipe,
                        entries0[completing_indices(entries0.take(j as int), elapsed)[k]]
                            .crafter->Some_0.recipe->Some_0,
                    ),
            decreases n - j,
        {
            proof {
                lemma_completing_indices_take_succ(entries0, elapsed, j as int);
                lemma_completing_indices_nonneg(entries0.take(j as int), elapsed);
            }
            let ghost pre_entry = self.entries@[j as int];
            let completed = {
                let entry = &mut self.entries[j];
                let pace = scale_elapsed(elapsed, entry.speed);
                match &mut entry.crafter {
                    Option::Some(c) => c.advance(&mut entry.inventory, pace),
                    Option::None => Option::None,
                }
            };
            let ghost completed_snap = completed;
            proof {
                assert(self.entries@[j as int].wf());
                assert(entry_step(pre_entry, elapsed, self.entries@[j as int], completed_snap));
                assert(stepped(pre_entry, elapsed, self.entries@[j as int]));
                assert(completed_snap is Some <==> entry_completes(pre_entry, elapsed));
            }
            match completed {
                Option::Some(recipe) => {
                    self.events.push(CraftCompleteEvent { entity: j, recipe });
                },
                Option::None => {},
            }
            j = j + 1;
        }
        proof {
            assert(entries0.take(n as int) =~= entries0);
            lemma_completing_indices_nonneg(entries0, elapsed);
        }
    }

    /// Empties the inventory of entity `src` into the inventory of entity
    /// `dst`, honoring `src`'s output filter, or bypassing it when `forced`
    /// is set. A transfer from an inventory into itself is refused with
    /// `InvariantViolated`; an index without a record is refused with
    /// `NotFound`; a refused transfer changes nothing.
    pub fn transfer_between(&mut self, src: usize, dst: usize, forced: bool) -> (r: Result<
        (),
        CoreError,
    >)
        requires
            old(self).wf(),
            src != dst && src < old(self).entries@.len() && dst < old(self).entries@.len()
                ==> forall|t: ItemType|
                (forced || old(self).entries@[src as int].inventory.output_filter.allows(t))
                    ==> old(self).entries@[dst as int].inventory.count(t) + #[trigger] old(
                    self,
                ).entries@[src as int].inventory.count(t) <= u32::MAX,
        ensures
            final(self).wf(),
            final(self).events@ == old(self).events@,
            match r {
                Result::Err(e) => {
                    &&& final(self).entries@ == old(self).entries@
                    &&& (e == CoreError::InvariantViolated <==> src == dst)
                    &&& (e == CoreError::NotFound <==> src != dst && (src >= old(self).entries@.len() || dst >= old(self).entries@.len()))
                },
                Result::Ok(moved) => {
                    &&& src != dst && src < old(self).entries@.len() && dst < old(self).entries@.len()
                    &&& forall|k: int|
                        0 <= k < old(self).entries@.len() && k != src && k != dst
                            ==> final(self).entries@[k] == old(self).entries@[k]
                    &&& final(self).entries@.len() == old(self).entries@.len()
                    &&& final(self).entries@[src as int].crafter == old(self).entries@[
                        src as int
                    ].crafter
                    &&& final(self).entries@[src as int].speed == old(self).entries@[
                        src as int
                    ].speed
                    &&& final(self).entries@[dst as int].crafter == old(self).entries@[
                        dst as int
                    ].crafter
                    &&& final(self).entries@[dst as int].speed == old(self).entries@[
                        dst as int
                    ].speed
                    &&& final(self).entries@[src as int].inventory.same_shape(
                        old(self).entries@[src as int].inventory,
                    )
                    &&& final(self).entries@[dst as int].inventory.same_shape(
                        old(self).entries@[dst as int].inventory,
                    )
                    &&& forall|t: ItemType|
                        (forced || old(self).entries@[src as int].inventory.output_filter.allows(
                            t,
                        )) ==> final(self).entries@[src as int].inventory.count(t) == 0 && final(self).entries@[dst as int].inventory.count(t) == old(self).entries@[
                            dst as int
                        ].inventory.count(t) + old(self).entries@[src as int].inventory.count(t)
                    &&& forall|t: ItemType|
                        !(forced || old(self).entries@[src as int].inventory.output_filter.allows(
                            t,
                        )) ==> final(self).entries@[src as int].inventory.count(t) == old(self).entries@[src as int].inventory.count(t) && final(self).entries@[
                            dst as int
                        ].inventory.count(t) == old(self).entries@[dst as int].inventory.count(t)
                },
            },
    {
        if src == dst {
            return Result::Err(CoreError::InvariantViolated);
        }
        if src >= self.entries.len() || dst >= self.entries.len() {
            return Result::Err(CoreError::NotFound);
        }
        let mut pulled: Inventory = Default::default();
        core::mem::swap(&mut pulled, &mut self.entries[dst].inventory);
        proof {
            assert(self.entries@[src as int] == old(self).entries@[src as int]);
            assert(pulled == old(self).entries@[dst as int].inventory);
        }
        if forced {
            proof {
                assert forall|t: ItemType|
                    pulled.count(t) + self.entries@[src as int].inventory.count(t)
                    <= u32::MAX by {
                    assert(old(self).entries@[dst as int].inventory.count(t) + old(
                        self,
                    ).entries@[src as int].inventory.count(t) <= u32::MAX);
                }
            }
            self.entries[src].inventory.force_empty_into_other(&mut pulled);
        } else {
            proof {
                assert forall|t: ItemType|
                    self.entries@[src as int].inventory.output_filter.allows(t) implies pulled
                    .count(t) + self.entries@[src as int].inventory.count(t) <= u32::MAX by {
                    assert(old(self).entries@[dst as int].inventory.count(t) + old(
                        self,
                    ).entries@[src as int].inventory.count(t) <= u32::MAX);
                }
            }
            self.entries[src].inventory.try_empty_into_other(&mut pulled);
        }
        core::mem::swap(&mut pulled, &mut self.entries[dst].inventory);
        Result::Ok(())
    }

    /// Hands out the queued completion events in emission order and clears
    /// the queue: each completion is observed exactly once and is not
    /// replayed on later ticks.
    pub fn drain_events(&mut self) -> (drained: Vec<CraftCompleteEvent>)
        ensures
            old(self).wf() ==> final(self).wf(),
            drained@ == old(self).events@,
            final(self).events@.len() == 0,
            final(self).entries@ == old(self).entries@,
    {
        let mut drained: Vec<CraftCompleteEvent> = Vec::new();
        core::mem::swap(&mut drained, &mut self.events);
        drained
    }
}

/// The tick's elapsed time under a speed multiplier, saturating at the
/// largest representable value.
fn scale_elapsed(elapsed: u64, speed: u64) -> (r: u64)
    requires
        speed >= 1,
    ensures
        r == scaled(elapsed, speed),
{
    let cap = u64::MAX / speed;
    proof {
        vstd::arithmetic::div_mod::lemma_fundamental_div_mod(u64::MAX as int, speed as int);
        if elapsed <= cap {
            assert(elapsed * speed <= cap * speed) by (nonlinear_arith)
                requires
                    0 <= elapsed <= cap,
                    speed >= 1,
            ;
            assert(cap * speed <= u64::MAX);
        } else {
            assert(elapsed * speed >= (cap + 1) * speed) by (nonlinear_arith)
                requires
                    elapsed >= cap + 1,
                    speed >= 1,
            ;
            assert((cap + 1) * speed == cap * speed + speed) by (nonlinear_arith);
            assert(cap * speed + speed > u64::MAX);
        }
    }
    if elapsed > cap {
        u64::MAX
    } else {
        elapsed * speed
    }
}

/// Totals of completing indices are themselves within range.
proof fn lemma_completing_indices_nonneg(entries: Seq<EntityEntry>, elapsed: u64)
    ensures
        completing_indices(entries, elapsed).len() <= entries.len(),
        forall|k: int|
            0 <= k < completing_indices(entries, elapsed).len() ==> 0 <= #[trigger]
            completing_indices(entries, elapsed)[k] < entries.len(),
    decreases entries.len(),
{
    if entries.len() > 0 {
        lemma_completing_indices_nonneg(entries.drop_last(), elapsed);
    }
}

/// Extending the processed prefix by one entry appends that entry's index to
/// the completing list exactly when its crafter crosses the threshold.
proof fn lemma_completing_indices_take_succ(entries: Seq<EntityEntry>, elapsed: u64, j: int)
    requires
        0 <= j < entries.len(),
    ensures
        completing_indices(entries.take(j + 1), elapsed) == completing_indices(
            entries.take(j),
            elapsed,
        ) + if entry_completes(entries[j], elapsed) {
            seq![j]
        } else {
            Seq::<int>::empty()
        },
{
    assert(entries.take(j + 1).drop_last() =~= entries.take(j));
    assert(entries.take(j + 1).last() == entries[j]);
    if !entry_completes(entries[j], elapsed) {
        assert(completing_indices(entries.take(j + 1), elapsed) =~= completing_indices(
            entries.take(j),
            elapsed,
        ) + Seq::<int>::empty());
    }
}

/// Law (exactly one completion signal per tick, registry level): the queue
/// segment a tick appends names each completing entity exactly once — the
/// completing indices are strictly ascending, and an index appears among them
/// exactly when its entry crosses the completion threshold.
pub proof fn lemma_completing_indices_exact(entries: Seq<EntityEntry>, elapsed: u64)
    ensures
        forall|a: int, b: int|
            0 <= a < b < completing_indices(entries, elapsed).len() ==> #[trigger]
            completing_indices(entries, elapsed)[a] < #[trigger] completing_indices(
                entries,
                elapsed,
            )[b],
        forall|j: int|
            0 <= j < entries.len() ==> (completing_indices(entries, elapsed).contains(j)
                <==> entry_completes(#[trigger] entries[j], elapsed)),
    decreases entries.len(),
{
    let listed = completing_indices(entries, elapsed);
    if entries.len() > 0 {
        lemma_completing_indices_exact(entries.drop_last(), elapsed);
        lemma_completing_indices_nonneg(entries.drop_last(), elapsed);
        let shorter = completing_indices(entries.drop_last(), elapsed);
        assert forall|j: int|
            0 <= j < entries.len() implies (listed.contains(j) <==> entry_completes(
            entries[j],
            elapsed,
        )) by {
            if j < entries.len() - 1 {
                assert(entries.drop_last()[j] == entries[j]);
                if shorter.contains(j) {
                    let k = choose|k: int| #![trigger shorter[k]] 0 <= k < shorter.len()
                        && shorter[k] == j;
                    assert(listed[k] == j);
                }
                if listed.contains(j) {
                    let k = choose|k: int| #![trigger listed[k]] 0 <= k < listed.len()
                        && listed[k] == j;
                    assert(k < shorter.len());
                    assert(shorter[k] == j);
                }
            } else {
                if entry_completes(entries[j], elapsed) {
                    assert(listed[listed.len() - 1] == j);
                }
                if listed.contains(j) {
                    let k = choose|k: int| #![trigger listed[k]] 0 <= k < listed.len()
                        && listed[k] == j;
                    if k < shorter.len() {
                        assert(shorter.contains(j));
                    }
                }
            }
        }
    }
}

} // verus!
