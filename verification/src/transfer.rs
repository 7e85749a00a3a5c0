//! The transfer protocol: moving stacks between two independently owned
//! inventories, honoring the source's output filter or bypassing it, plus the
//! single-item click interactions.
//!
//! A transfer touches two inventories at once; taking both as distinct
//! mutable references makes a transfer from an inventory into itself
//! impossible by construction.

use vstd::prelude::*;

use crate::inventory::{Inventory, lemma_count_nonneg};
use crate::items::{ItemAmount, ItemType, lemma_stacks_count_absent, lemma_stacks_count_at,
    stacks_has_type};

verus! {

impl Inventory {
    /// Moves the whole stock of every item type named in `items_to_pull` from
    /// `self` into `other`, ignoring both inventories' filters.
    pub fn move_items_into_other(&mut self, other: &mut Inventory, items_to_pull: Vec<ItemAmount>)
        requires
            old(self).wf(),
            old(other).wf(),
            forall|t: ItemType|
                stacks_has_type(items_to_pull@, t) ==> old(other).count(t) + old(self).count(t)
                    <= u32::MAX,
        ensures
            final(self).wf(),
            final(other).wf(),
            forall|t: ItemType|
                stacks_has_type(items_to_pull@, t) ==> final(self).count(t) == 0 && final(other).count(t) == old(other).count(t) + old(self).count(t),
            forall|t: ItemType|
                !stacks_has_type(items_to_pull@, t) ==> final(self).count(t) == old(self).count(t)
                    && final(other).count(t) == old(other).count(t),
            final(self).same_shape(*old(self)),
            final(other).same_shape(*old(other)),
    {
        let mut i: usize = 0;
        proof {
            assert(forall|t: ItemType| !stacks_has_type(items_to_pull@.take(0), t));
        }
        while i < items_to_pull.len()
            invariant
                0 <= i <= items_to_pull@.len(),
                self.wf(),
                other.wf(),
                forall|t: ItemType|
                    stacks_has_type(items_to_pull@, t) ==> old(other).count(t) + old(self).count(t) <= u32::MAX,
                forall|t: ItemType|
                    stacks_has_type(items_to_pull@.take(i as int), t) ==> self.count(t) == 0
                        && other.count(t) == old(other).count(t) + old(self).count(t),
                forall|t: ItemType|
                    !stacks_has_type(items_to_pull@.take(i as int), t) ==> self.count(t) == old(self).count(t) && other.count(t) == old(other).count(t),
                self.same_shape(*old(self)),
                other.same_shape(*old(other)),
            decreases items_to_pull@.len() - i,
        {
            let pulled = items_to_pull[i].item;
            proof {
                lemma_has_type_take_succ(items_to_pull@, i as int);
                assert(stacks_has_type(items_to_pull@, pulled)) by {
                    assert(items_to_pull@[i as int].item == pulled);
                }
                lemma_count_nonneg(*old(self), pulled);
                lemma_count_nonneg(*old(other), pulled);
            }
            let held = self.take_all_of(pulled);
            if held > 0 {
                other.add_item(pulled, held);
            }
            i = i + 1;
        }
        proof {
            assert(items_to_pull@.take(items_to_pull@.len() as int) =~= items_to_pull@);
        }
    }

    /// Removes and returns the whole stock of item type `t`.
    fn take_all_of(&mut self, t: ItemType) -> (r: u32)
        requires
            old(self).wf(),
        ensures
            final(self).wf(),
            r == old(self).count(t),
            final(self).count(t) == 0,
            forall|u: ItemType| u != t ==> final(self).count(u) == old(self).count(u),
            final(self).same_shape(*old(self)),
    {
        proof {
            lemma_count_nonneg(*self, t);
        }
        let held = self.count_of(t);
        let removed = self.remove_item(t, held);
        proof {
            assert(removed);
        }
        held
    }

    /// The stored amount of item type `t`, as a machine integer.
    pub fn count_of(&self, t: ItemType) -> (r: u32)
        requires
            self.wf(),
        ensures
            r == self.count(t),
    {
        let mut i: usize = 0;
        while i < self.items.len()
            invariant
                0 <= i <= self.items@.len(),
                self.wf(),
                forall|k: int| 0 <= k < i ==> self.items@[k].item != t,
            decreases self.items@.len() - i,
        {
            if self.items[i].item == t {
                proof {
                    lemma_stacks_count_at(self.items@, i as int);
                }
                return self.items[i].amount;
            }
            i = i + 1;
        }
        proof {
            lemma_stacks_count_absent(self.items@, t);
        }
        0
    }

    /// Empties `self` into `other`, honoring `self`'s output filter: the
    /// whole stock of every type the filter lets out moves into `other`, and
    /// every type the filter refuses stays in `self` untouched. `other`'s
    /// input filter is not consulted; the destination accepts whatever the
    /// source lets out.
    pub fn try_empty_into_other(&mut self, other: &mut Inventory)
        requires
            old(self).wf(),
            old(other).wf(),
            forall|t: ItemType|
                old(self).output_filter.allows(t) ==> old(other).count(t) + old(self).count(t)
                    <= u32::MAX,
        ensures
            final(self).wf(),
            final(other).wf(),
            forall|t: ItemType|
                old(self).output_filter.allows(t) ==> final(self).count(t) == 0 && final(other).count(t) == old(other).count(t) + old(self).count(t),
            forall|t: ItemType|
                !old(self).output_filter.allows(t) ==> final(self).count(t) == old(self).count(t)
                    && final(other).count(t) == old(other).count(t),
            final(self).same_shape(*old(self)),
            final(other).same_shape(*old(other)),
    {
        let ghost pred = |ia: ItemAmount| self.output_filter.allows(ia.item);
        let snapshot = clone_stacks(&self.items);
        let pullable = self.pullable_items(snapshot);
        proof {
            let stacks = self.items@;
            assert forall|t: ItemType|
                #[trigger] stacks_has_type(pullable@, t) <==> (self.output_filter.allows(t)
                    && self.count(t) > 0) by {
                if stacks_has_type(pullable@, t) {
                    let k = choose|k: int| #![trigger pullable@[k]] 0 <= k < pullable@.len()
                        && pullable@[k].item == t;
                    stacks.lemma_filter_pred(pred, k);
                    assert(pullable@.contains(pullable@[k]));
                    stacks.lemma_filter_contains_rev(pred, pullable@[k]);
                    let j = choose|j: int| #![trigger stacks[j]] 0 <= j < stacks.len()
                        && stacks[j] == pullable@[k];
                    lemma_stacks_count_at(stacks, j);
                }
                if self.output_filter.allows(t) && self.count(t) > 0 {
                    if !stacks_has_type(stacks, t) {
                        lemma_stacks_count_absent(stacks, t);
                    }
                    let j = choose|j: int| 0 <= j < stacks.len() && stacks[j].item == t;
                    stacks.lemma_filter_contains(pred, j);
                    let k = choose|k: int|
                        0 <= k < pullable@.len() && pullable@[k] == stacks[j];
                    assert(pullable@[k].item == t);
                }
            }
            assert forall|t: ItemType|
                stacks_has_type(pullable@, t) implies old(other).count(t) + self.count(t)
                <= u32::MAX by {
                lemma_count_nonneg(*self, t);
            }
            assert forall|t: ItemType|
                !stacks_has_type(pullable@, t) && self.output_filter.allows(t) implies self.count(
                t,
            ) == 0 by {
                lemma_count_nonneg(*self, t);
            }
        }
        self.move_items_into_other(other, pullable);
    }

    /// Empties `self` into `other` completely, bypassing both inventories'
    /// filters: used when a recipe changes or a structure is destroyed, so
    /// that filtered-out work-in-progress contents are not silently lost.
    pub fn force_empty_into_other(&mut self, other: &mut Inventory)
        requires
            old(self).wf(),
            old(other).wf(),
            forall|t: ItemType| old(other).count(t) + old(self).count(t) <= u32::MAX,
        ensures
            final(self).wf(),
            final(other).wf(),
            forall|t: ItemType|
                final(self).count(t) == 0 && final(other).count(t) == old(other).count(t) + old(self).count(t),
            final(self).same_shape(*old(self)),
            final(other).same_shape(*old(other)),
    {
        let snapshot = clone_stacks(&self.items);
        proof {
            assert forall|t: ItemType|
                !stacks_has_type(snapshot@, t) implies self.count(t) == 0 by {
                lemma_stacks_count_absent(self.items@, t);
            }
        }
        self.move_items_into_other(other, snapshot);
    }

    /// Single-item click insert (for example player into structure): moves
    /// one of `item` from `self` into `other` when `other`'s input filter
    /// accepts the type and `self` holds at least one; otherwise both
    /// inventories are left untouched. Returns whether the move happened.
    pub fn try_insert_item(&mut self, other: &mut Inventory, item: ItemType) -> (r: bool)
        requires
            old(self).wf(),
            old(other).wf(),
            old(other).input_filter.allows(item) && old(self).count(item) >= 1 ==> old(other).count(item) < u32::MAX,
        ensures
            final(self).wf(),
            final(other).wf(),
            r == (old(other).input_filter.allows(item) && old(self).count(item) >= 1),
            r ==> final(self).count(item) == old(self).count(item) - 1 && final(other).count(item)
                == old(other).count(item) + 1,
            r ==> forall|t: ItemType|
                t != item ==> final(self).count(t) == old(self).count(t) && final(other).count(t)
                    == old(other).count(t),
            !r ==> *final(self) == *old(self) && *final(other) == *old(other),
            final(self).same_shape(*old(self)),
            final(other).same_shape(*old(other)),
    {
        if !other.input_filter.check_allows(item) {
            return false;
        }
        proof {
            lemma_count_nonneg(*other, item);
        }
        if self.remove_item(item, 1) {
            other.add_item(item, 1);
            true
        } else {
            false
        }
    }

    /// Single-item click withdraw (for example structure into player): moves
    /// one of `item` from `self` into `other` when `self`'s output filter
    /// lets the type out, `other`'s input filter accepts it, and `self` holds
    /// at least one; otherwise both inventories are left untouched. Returns
    /// whether the move happened.
    pub fn try_withdraw_item(&mut self, other: &mut Inventory, item: ItemType) -> (r: bool)
        requires
            old(self).wf(),
            old(other).wf(),
            old(self).output_filter.allows(item) && old(other).input_filter.allows(item) && old(self).count(item) >= 1 ==> old(other).count(item) < u32::MAX,
        ensures
            final(self).wf(),
            final(other).wf(),
            r == (old(self).output_filter.allows(item) && old(other).input_filter.allows(item)
                && old(self).count(item) >= 1),
            r ==> final(self).count(item) == old(self).count(item) - 1 && final(other).count(item)
                == old(other).count(item) + 1,
            r ==> forall|t: ItemType|
                t != item ==> final(self).count(t) == old(self).count(t) && final(other).count(t)
                    == old(other).count(t),
            !r ==> *final(self) == *old(self) && *final(other) == *old(other),
            final(self).same_shape(*old(self)),
            final(other).same_shape(*old(other)),
    {
        if !self.output_filter.check_allows(item) {
            return false;
        }
        if !other.input_filter.check_allows(item) {
            return false;
        }
        proof {
            lemma_count_nonneg(*other, item);
        }
        if self.remove_item(item, 1) {
            other.add_item(item, 1);
            true
        } else {
            false
        }
    }
}

/// Law: provided every item type the source holds and lets out is acceptable
/// to the destination's input filter, a filtered transfer inserts into the
/// destination no item type that the destination's input filter refuses.
///
/// The first two hypotheses are exactly what
/// [`Inventory::try_empty_into_other`] ensures; the third excludes the
/// configurations in which the source is allowed to push a refused type, for
/// the transfer consults the source's output filter only.
pub proof fn lemma_try_empty_respects_destination_filter(
    src0: Inventory,
    dst0: Inventory,
    src1: Inventory,
    dst1: Inventory,
)
    requires
        forall|t: ItemType|
            src0.output_filter.allows(t) ==> src1.count(t) == 0 && dst1.count(t) == dst0.count(t)
                + src0.count(t),
        forall|t: ItemType|
            !src0.output_filter.allows(t) ==> src1.count(t) == src0.count(t) && dst1.count(t)
                == dst0.count(t),
        forall|t: ItemType|
            src0.output_filter.allows(t) && src0.count(t) > 0 ==> dst0.input_filter.allows(t),
    ensures
        forall|t: ItemType|
            !dst0.input_filter.allows(t) ==> dst1.count(t) == dst0.count(t),
{
    assert forall|t: ItemType|
        !dst0.input_filter.allows(t) implies dst1.count(t) == dst0.count(t) by {
        if src0.output_filter.allows(t) {
            lemma_count_nonneg(src0, t);
        }
    }
}

/// A copy of a stack list.
fn clone_stacks(stacks: &Vec<ItemAmount>) -> (r: Vec<ItemAmount>)
    ensures
        r@ == stacks@,
{
    let mut r: Vec<ItemAmount> = Vec::new();
    let mut i: usize = 0;
    while i < stacks.len()
        invariant
            0 <= i <= stacks@.len(),
            r@ == stacks@.take(i as int),
        decreases stacks@.len() - i,
    {
        r.push(stacks[i]);
        proof {
            assert(stacks@.take(i + 1) =~= stacks@.take(i as int).push(stacks@[i as int]));
        }
        i = i + 1;
    }
    proof {
        assert(stacks@.take(stacks@.len() as int) =~= stacks@);
    }
    r
}

/// Extending a prefix by one stack extends the set of named types by exactly
/// that stack's type.
proof fn lemma_has_type_take_succ(stacks: Seq<ItemAmount>, i: int)
    requires
        0 <= i < stacks.len(),
    ensures
        forall|t: ItemType|
            stacks_has_type(stacks.take(i + 1), t) <==> (stacks_has_type(stacks.take(i), t)
                || stacks[i].item == t),
{
    let longer = stacks.take(i + 1);
    let shorter = stacks.take(i);
    assert forall|t: ItemType|
        stacks_has_type(longer, t) <==> (stacks_has_type(shorter, t) || stacks[i].item == t) by {
        if stacks_has_type(longer, t) {
            let k = choose|k: int| #![trigger longer[k]] 0 <= k < longer.len() && longer[k].item
                == t;
            if k < i {
                assert(shorter[k].item == t);
            } else {
                assert(stacks[i].item == t);
            }
        }
        if stacks_has_type(shorter, t) {
            let k = choose|k: int| #![trigger shorter[k]] 0 <= k < shorter.len()
                && shorter[k].item == t;
            assert(longer[k].item == t);
        }
        if stacks[i].item == t {
            assert(longer[i].item == t);
        }
    }
}

} // verus!
