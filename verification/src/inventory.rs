//! Inventories: a mapping from item type to stored amount, a slot bound, and
//! two directional filters.
//!
//! The mapping is kept as a stack list in which every present entry has a
//! positive amount and no item type appears twice; an absent type is stored
//! as zero. [`Inventory::count`] is the specification-level view of the
//! contents. All amounts are non-negative by construction, and
//! [`lemma_count_nonneg`] records that fact.

use vstd::prelude::*;

use crate::items::{ItemAmount, ItemType, lemma_stacks_count_absent, lemma_stacks_count_at,
    lemma_stacks_count_nonneg, lemma_stacks_count_push, stacks_count, stacks_has_type, stacks_wf};
use crate::recipes::Recipe;

verus! {

/// A directional rule constraining which item types may cross an inventory
/// boundary during an external transfer.
#[derive(Clone, Debug)]
pub enum InventoryFilter {
    /// No restriction.
    All,
    /// Only the listed item types pass.
    Only(Vec<ItemType>),
    /// Everything but the listed item types passes.
    Except(Vec<ItemType>),
    /// Nothing passes.
    Nothing,
}

impl InventoryFilter {
    /// Whether item type `t` passes this filter.
    pub open spec fn allows(self, t: ItemType) -> bool {
        match self {
            InventoryFilter::All => true,
            InventoryFilter::Only(listed) => listed@.contains(t),
            InventoryFilter::Except(listed) => !listed@.contains(t),
            InventoryFilter::Nothing => false,
        }
    }

    /// Runtime check of [`InventoryFilter::allows`].
    pub fn check_allows(&self, t: ItemType) -> (r: bool)
        ensures
            r == self.allows(t),
    {
        match self {
            InventoryFilter::All => true,
            InventoryFilter::Only(listed) => contains_type(listed, t),
            InventoryFilter::Except(listed) => !contains_type(listed, t),
            InventoryFilter::Nothing => false,
        }
    }
}

/// Whether the item type list `listed` contains `t`.
fn contains_type(listed: &Vec<ItemType>, t: ItemType) -> (r: bool)
    ensures
        r == listed@.contains(t),
{
    let mut i: usize = 0;
    while i < listed.len()
        invariant
            0 <= i <= listed@.len(),
            forall|k: int| 0 <= k < i ==> listed@[k] != t,
        decreases listed@.len() - i,
    {
        if listed[i] == t {
            return true;
        }
        i = i + 1;
    }
    false
}

/// A store of item stacks with a slot bound and two directional filters.
///
/// `input_filter` gates what an external transfer may add; `output_filter`
/// gates what an external transfer may pull out. Direct production and
/// consumption by the owning crafter bypasses both filters.
#[derive(Debug)]
pub struct Inventory {
    /// Present stacks; every entry has a positive amount and no item type
    /// appears twice.
    pub items: Vec<ItemAmount>,
    /// Recorded slot bound. The bound is informational: no operation of this
    /// module enforces it, since which quantity it should cap (distinct item
    /// types or total stack count) is deliberately left open.
    pub slots: u16,
    pub input_filter: InventoryFilter,
    pub output_filter: InventoryFilter,
}

impl Inventory {
    /// Structural invariant of the stack list: no duplicate item types, and
    /// every present entry has a positive amount.
    pub open spec fn wf(self) -> bool {
        &&& stacks_wf(self.items@)
        &&& forall|i: int| 0 <= i < self.items@.len() ==> self.items@[i].amount > 0
    }

    /// The stored amount of item type `t`; zero when `t` is absent.
    pub open spec fn count(self, t: ItemType) -> int {
        stacks_count(self.items@, t)
    }

    /// Filters and slot bound of `self` and `other` agree.
    pub open spec fn same_shape(self, other: Inventory) -> bool {
        &&& self.slots == other.slots
        &&& self.input_filter == other.input_filter
        &&& self.output_filter == other.output_filter
    }

    /// Every stack of `stacks` is covered by the current contents.
    pub open spec fn has_stacks(self, stacks: Seq<ItemAmount>) -> bool {
        forall|i: int|
            0 <= i < stacks.len() ==> self.count(#[trigger] stacks[i].item) >= stacks[i].amount
    }

    /// A fresh inventory holding the given stacks, with both filters open.
    pub fn new(slots: u16, items: Vec<ItemAmount>) -> (r: Inventory)
        requires
            stacks_wf(items@),
        ensures
            r.wf(),
            forall|t: ItemType| r.count(t) == stacks_count(items@, t),
            r.slots == slots,
            r.input_filter == InventoryFilter::All,
            r.output_filter == InventoryFilter::All,
    {
        let mut r = Inventory {
            items: Vec::new(),
            slots,
            input_filter: InventoryFilter::All,
            output_filter: InventoryFilter::All,
        };
        let mut i: usize = 0;
        proof {
            assert(forall|t: ItemType| stacks_count(items@.take(0), t) == 0);
        }
        while i < items.len()
            invariant
                0 <= i <= items@.len(),
                stacks_wf(items@),
                r.wf(),
                forall|t: ItemType| r.count(t) == stacks_count(items@.take(i as int), t),
                r.slots == slots,
                r.input_filter == InventoryFilter::All,
                r.output_filter == InventoryFilter::All,
            decreases items@.len() - i,
        {
            let stack = items[i];
            proof {
                assert(items@.take(i + 1).drop_last() =~= items@.take(i as int));
                lemma_stacks_count_at(items@, i as int);
                lemma_stacks_count_take_le(items@, stack.item, i as int);
                lemma_stacks_count_nonneg(items@.take(i as int), stack.item);
                assert(!stacks_has_type(items@.take(i as int), stack.item)) by {
                    assert(forall|k: int|
                        0 <= k < i ==> #[trigger] items@.take(i as int)[k] == items@[k]);
                }
                lemma_stacks_count_absent(items@.take(i as int), stack.item);
            }
            r.add_item(stack.item, stack.amount);
            i = i + 1;
        }
        proof {
            assert(items@.take(items@.len() as int) =~= items@);
        }
        r
    }

    /// Adds `amount` of `item` to the stored contents. Never fails; the slot
    /// bound is not enforced.
    pub fn add_item(&mut self, item: ItemType, amount: u32)
        requires
            old(self).wf(),
            old(self).count(item) + amount <= u32::MAX,
        ensures
            final(self).wf(),
            final(self).count(item) == old(self).count(item) + amount,
            forall|t: ItemType| t != item ==> final(self).count(t) == old(self).count(t),
            final(self).same_shape(*old(self)),
            final(self).items@.len() >= old(self).items@.len(),
    {
        proof {
            lemma_count_nonneg(*self, item);
        }
        match find_type(&self.items, item) {
            Option::Some(i) => {
                proof {
                    lemma_stacks_count_at(self.items@, i as int);
                }
                let merged = self.items[i].amount + amount;
                let ghost before = self.items@;
                self.items[i] = ItemAmount { item, amount: merged };
                proof {
                    assert forall|t: ItemType|
                        #[trigger] stacks_count(self.items@, t) == stacks_count(before, t)
                            + if item == t {
                            amount as int
                        } else {
                            0
                        } by {
                        lemma_stacks_count_update(before, i as int, (ItemAmount {
                            item,
                            amount: merged,
                        }), t);
                    }
                }
            },
            Option::None => {
                proof {
                    lemma_stacks_count_absent(self.items@, item);
                }
                if amount > 0 {
                    let ghost before = self.items@;
                    self.items.push(ItemAmount { item, amount });
                    proof {
                        assert forall|t: ItemType|
                            #[trigger] stacks_count(before.push((ItemAmount { item, amount })), t)
                                == stacks_count(before, t) + if item == t {
                                amount as int
                            } else {
                                0
                            } by {
                            lemma_stacks_count_push(before, (ItemAmount { item, amount }), t);
                        }
                    }
                }
            },
        }
    }

    /// Adds every stack of `stacks` to the stored contents. Never fails; the
    /// slot bound is not enforced.
    pub fn add_items(&mut self, stacks: &Vec<ItemAmount>)
        requires
            old(self).wf(),
            forall|t: ItemType|
                old(self).count(t) + stacks_count(stacks@, t) <= u32::MAX,
        ensures
            final(self).wf(),
            forall|t: ItemType|
                final(self).count(t) == old(self).count(t) + stacks_count(stacks@, t),
            final(self).same_shape(*old(self)),
    {
        let mut i: usize = 0;
        proof {
            assert(forall|t: ItemType| stacks_count(stacks@.take(0), t) == 0);
        }
        while i < stacks.len()
            invariant
                0 <= i <= stacks@.len(),
                self.wf(),
                forall|t: ItemType|
                    self.count(t) == old(self).count(t) + stacks_count(
                        stacks@.take(i as int),
                        t,
                    ),
                forall|t: ItemType|
                    old(self).count(t) + stacks_count(stacks@, t) <= u32::MAX,
                self.same_shape(*old(self)),
            decreases stacks@.len() - i,
        {
            let stack = stacks[i];
            proof {
                lemma_stacks_count_take_succ(stacks@, i as int);
                lemma_stacks_count_take_le(stacks@, stack.item, i + 1);
                lemma_count_nonneg(*self, stack.item);
            }
            self.add_item(stack.item, stack.amount);
            i = i + 1;
        }
        proof {
            assert(stacks@.take(stacks@.len() as int) =~= stacks@);
        }
    }

    /// True iff the current stock of the stack's item type covers the stack's
    /// amount.
    pub fn has_item(&self, item_amount: &ItemAmount) -> (r: bool)
        requires
            self.wf(),
        ensures
            r == (self.count(item_amount.item) >= item_amount.amount),
    {
        proof {
            lemma_count_nonneg(*self, item_amount.item);
        }
        match find_type(&self.items, item_amount.item) {
            Option::Some(i) => {
                proof {
                    lemma_stacks_count_at(self.items@, i as int);
                }
                self.items[i].amount >= item_amount.amount
            },
            Option::None => {
                proof {
                    lemma_stacks_count_absent(self.items@, item_amount.item);
                }
                item_amount.amount == 0
            },
        }
    }

    /// True iff every stack of `stacks` is covered by the current contents:
    /// an all-or-nothing check without side effects.
    pub fn has_items(&self, stacks: &Vec<ItemAmount>) -> (r: bool)
        requires
            self.wf(),
        ensures
            r == self.has_stacks(stacks@),
    {
        let mut i: usize = 0;
        while i < stacks.len()
            invariant
                0 <= i <= stacks@.len(),
                self.wf(),
                forall|k: int|
                    0 <= k < i ==> self.count(#[trigger] stacks@[k].item) >= stacks@[k].amount,
            decreases stacks@.len() - i,
        {
            if !self.has_item(&stacks[i]) {
                return false;
            }
            i = i + 1;
        }
        true
    }
}

/// What [`Inventory::remove_if_possible`] removes for the request `stacks`
/// from an inventory whose pre-state counts are those of `inv`: one entry per
/// requested type that is present at all, carrying the smaller of the
/// requested and the available amount.
pub open spec fn removed_stacks(inv: Inventory, stacks: Seq<ItemAmount>) -> Seq<ItemAmount>
    decreases stacks.len(),
{
    if stacks.len() == 0 {
        Seq::empty()
    } else {
        let rest = removed_stacks(inv, stacks.drop_last());
        let req = stacks.last();
        let avail = inv.count(req.item);
        if avail == 0 {
            rest
        } else {
            rest.push(ItemAmount {
                item: req.item,
                amount: if avail >= req.amount {
                    req.amount
                } else {
                    avail as u32
                },
            })
        }
    }
}

impl Inventory {
    /// Removes `amount` of `item` if the stock covers it; otherwise leaves
    /// the inventory untouched. Returns whether the removal happened.
    pub fn remove_item(&mut self, item: ItemType, amount: u32) -> (r: bool)
        requires
            old(self).wf(),
        ensures
            final(self).wf(),
            r == (old(self).count(item) >= amount),
            r ==> final(self).count(item) == old(self).count(item) - amount,
            r ==> forall|t: ItemType| t != item ==> final(self).count(t) == old(self).count(t),
            !r ==> *final(self) == *old(self),
            final(self).same_shape(*old(self)),
    {
        proof {
            lemma_count_nonneg(*self, item);
        }
        match find_type(&self.items, item) {
            Option::Some(i) => {
                proof {
                    lemma_stacks_count_at(self.items@, i as int);
                }
                let held = self.items[i].amount;
                if held < amount {
                    return false;
                }
                let ghost before = self.items@;
                if held == amount {
                    self.items.remove(i);
                    proof {
                        assert forall|t: ItemType|
                            #[trigger] stacks_count(self.items@, t) == stacks_count(before, t)
                                - if item == t {
                                amount as int
                            } else {
                                0
                            } by {
                            lemma_stacks_count_remove(before, i as int, t);
                        }
                        assert forall|a: int, b: int|
                            0 <= a < b < self.items@.len() implies #[trigger] self.items@[a].item
                            != #[trigger] self.items@[b].item by {
                            assert(self.items@[a] == if a < i {
                                before[a]
                            } else {
                                before[a + 1]
                            });
                            assert(self.items@[b] == if b < i {
                                before[b]
                            } else {
                                before[b + 1]
                            });
                        }
                        assert forall|a: int| 0 <= a < self.items@.len() implies #[trigger] self
                            .items@[a].amount > 0 by {
                            assert(self.items@[a] == if a < i {
                                before[a]
                            } else {
                                before[a + 1]
                            });
                        }
                    }
                } else {
                    self.items[i] = ItemAmount { item, amount: held - amount };
                    proof {
                        assert forall|t: ItemType|
                            #[trigger] stacks_count(self.items@, t) == stacks_count(before, t)
                                - if item == t {
                                amount as int
                            } else {
                                0
                            } by {
                            lemma_stacks_count_update(before, i as int, (ItemAmount {
                                item,
                                amount: (held - amount) as u32,
                            }), t);
                        }
                    }
                }
                true
            },
            Option::None => {
                proof {
                    lemma_stacks_count_absent(self.items@, item);
                }
                amount == 0
            },
        }
    }

    /// Atomic removal: first checks that every stack of `stacks` is covered;
    /// if not, returns `false` and the contents are unchanged, otherwise
    /// removes every stack and returns `true`. All requested stacks are
    /// available or none is removed.
    pub fn remove_items(&mut self, stacks: &Vec<ItemAmount>) -> (r: bool)
        requires
            old(self).wf(),
            stacks_wf(stacks@),
        ensures
            final(self).wf(),
            r == old(self).has_stacks(stacks@),
            r ==> forall|t: ItemType|
                final(self).count(t) == old(self).count(t) - stacks_count(stacks@, t),
            !r ==> *final(self) == *old(self),
            final(self).same_shape(*old(self)),
    {
        if !self.has_items(stacks) {
            return false;
        }
        let mut i: usize = 0;
        proof {
            assert(forall|t: ItemType| stacks_count(stacks@.take(0), t) == 0);
        }
        while i < stacks.len()
            invariant
                0 <= i <= stacks@.len(),
                self.wf(),
                stacks_wf(stacks@),
                old(self).has_stacks(stacks@),
                forall|t: ItemType|
                    self.count(t) == old(self).count(t) - stacks_count(
                        stacks@.take(i as int),
                        t,
                    ),
                self.same_shape(*old(self)),
            decreases stacks@.len() - i,
        {
            let stack = stacks[i];
            proof {
                lemma_stacks_count_take_succ(stacks@, i as int);
                assert(!stacks_has_type(stacks@.take(i as int), stack.item)) by {
                    assert(forall|k: int|
                        0 <= k < i ==> #[trigger] stacks@.take(i as int)[k] == stacks@[k]);
                }
                lemma_stacks_count_absent(stacks@.take(i as int), stack.item);
                assert(old(self).count(stacks@[i as int].item) >= stacks@[i as int].amount);
            }
            let removed = self.remove_item(stack.item, stack.amount);
            proof {
                assert(removed);
            }
            i = i + 1;
        }
        proof {
            assert(stacks@.take(stacks@.len() as int) =~= stacks@);
        }
        true
    }

    /// Best-effort, partial removal: for each requested stack independently,
    /// removes up to the available amount — possibly less than requested,
    /// possibly zero — and returns what was actually removed per item type.
    pub fn remove_if_possible(&mut self, stacks: &Vec<ItemAmount>) -> (r: Vec<ItemAmount>)
        requires
            old(self).wf(),
            stacks_wf(stacks@),
        ensures
            final(self).wf(),
            r@ == removed_stacks(*old(self), stacks@),
            forall|t: ItemType|
                final(self).count(t) == old(self).count(t) - stacks_count(r@, t),
            final(self).same_shape(*old(self)),
    {
        let mut r: Vec<ItemAmount> = Vec::new();
        let mut i: usize = 0;
        proof {
            assert(forall|t: ItemType| stacks_count(r@, t) == 0);
        }
        while i < stacks.len()
            invariant
                0 <= i <= stacks@.len(),
                self.wf(),
                stacks_wf(stacks@),
                r@ == removed_stacks(*old(self), stacks@.take(i as int)),
                forall|t: ItemType|
                    self.count(t) == old(self).count(t) - stacks_count(r@, t),
                forall|k: int|
                    i <= k < stacks@.len() ==> self.count(#[trigger] stacks@[k].item) == old(
                        self,
                    ).count(stacks@[k].item),
                self.same_shape(*old(self)),
            decreases stacks@.len() - i,
        {
            let stack = stacks[i];
            let ghost avail = old(self).count(stack.item);
            proof {
                lemma_removed_stacks_take_succ(*old(self), stacks@, i as int);
                lemma_count_nonneg(*self, stack.item);
            }
            let ghost r_before = r@;
            let take = {
                match find_type(&self.items, stack.item) {
                    Option::Some(j) => {
                        proof {
                            lemma_stacks_count_at(self.items@, j as int);
                        }
                        let held = self.items[j].amount;
                        if held >= stack.amount {
                            stack.amount
                        } else {
                            held
                        }
                    },
                    Option::None => {
                        proof {
                            lemma_stacks_count_absent(self.items@, stack.item);
                        }
                        0
                    },
                }
            };
            if avail_positive(self, stack.item) {
                let entry = ItemAmount { item: stack.item, amount: take };
                r.push(entry);
                let removed = self.remove_item(stack.item, take);
                proof {
                    assert(removed);
                    assert forall|t: ItemType|
                        #[trigger] stacks_count(r@, t) == stacks_count(r_before, t) + if entry.item
                            == t {
                            entry.amount as int
                        } else {
                            0
                        } by {
                        lemma_stacks_count_push(r_before, entry, t);
                    }
                }
            }
            i = i + 1;
        }
        proof {
            assert(stacks@.take(stacks@.len() as int) =~= stacks@);
        }
        r
    }

    /// True iff every listed item type passes the input filter, so an
    /// external transfer may add all of them.
    pub fn can_add_items(&self, items: &[ItemType]) -> (r: bool)
        ensures
            r == (forall|k: int|
                0 <= k < items@.len() ==> self.input_filter.allows(#[trigger] items@[k])),
    {
        let mut i: usize = 0;
        while i < items.len()
            invariant
                0 <= i <= items@.len(),
                forall|k: int| 0 <= k < i ==> self.input_filter.allows(#[trigger] items@[k]),
            decreases items@.len() - i,
        {
            if !self.input_filter.check_allows(items[i]) {
                return false;
            }
            i = i + 1;
        }
        true
    }

    /// The subset of `items` whose types pass the output filter, in order.
    pub fn pullable_items(&self, items: Vec<ItemAmount>) -> (r: Vec<ItemAmount>)
        ensures
            r@ == items@.filter(|ia: ItemAmount| self.output_filter.allows(ia.item)),
    {
        let ghost pred = |ia: ItemAmount| self.output_filter.allows(ia.item);
        let mut r: Vec<ItemAmount> = Vec::new();
        let mut i: usize = 0;
        proof {
            assert(items@.take(0).filter(pred) =~= Seq::empty());
        }
        while i < items.len()
            invariant
                0 <= i <= items@.len(),
                r@ == items@.take(i as int).filter(pred),
                pred == (|ia: ItemAmount| self.output_filter.allows(ia.item)),
            decreases items@.len() - i,
        {
            proof {
                assert(items@.take(i + 1) =~= items@.take(i as int).push(items@[i as int]));
                items@.take(i as int).lemma_filter_push(items@[i as int], pred);
            }
            if self.output_filter.check_allows(items[i].item) {
                r.push(items[i]);
            }
            i = i + 1;
        }
        proof {
            assert(items@.take(items@.len() as int) =~= items@);
        }
        r
    }

    /// Restricts the filters to a recipe: only the recipe's input types may
    /// be inserted externally, and only non-input byproducts may be pulled
    /// out. Without a recipe nothing may be inserted and everything may be
    /// pulled.
    pub fn filtered_for(&mut self, recipe: Option<&Recipe>)
        ensures
            final(self).items@ == old(self).items@,
            final(self).slots == old(self).slots,
            match recipe {
                Option::Some(r) => {
                    &&& (final(self).input_filter matches InventoryFilter::Only(listed)
                        && listed@ == r.input@.map_values(|ia: ItemAmount| ia.item))
                    &&& (final(self).output_filter matches InventoryFilter::Except(listed)
                        && listed@ == r.input@.map_values(|ia: ItemAmount| ia.item))
                    &&& forall|t: ItemType|
                        final(self).input_filter.allows(t) <==> stacks_has_type(r.input@, t)
                    &&& forall|t: ItemType|
                        final(self).output_filter.allows(t) <==> !stacks_has_type(r.input@, t)
                },
                Option::None => {
                    &&& final(self).input_filter == InventoryFilter::Nothing
                    &&& final(self).output_filter == InventoryFilter::All
                    &&& forall|t: ItemType| !final(self).input_filter.allows(t)
                    &&& forall|t: ItemType| final(self).output_filter.allows(t)
                },
            },
    {
        match recipe {
            Option::Some(r) => {
                let ghost types = r.input@.map_values(|ia: ItemAmount| ia.item);
                let mut inserted: Vec<ItemType> = Vec::new();
                let mut extracted: Vec<ItemType> = Vec::new();
                let mut i: usize = 0;
                while i < r.input.len()
                    invariant
                        0 <= i <= r.input@.len(),
                        types == r.input@.map_values(|ia: ItemAmount| ia.item),
                        inserted@ == types.take(i as int),
                        extracted@ == types.take(i as int),
                    decreases r.input@.len() - i,
                {
                    inserted.push(r.input[i].item);
                    extracted.push(r.input[i].item);
                    proof {
                        assert(types.take(i + 1) =~= types.take(i as int).push(types[i as int]));
                    }
                    i = i + 1;
                }
                proof {
                    assert(types.take(types.len() as int) =~= types);
                    assert forall|t: ItemType| types.contains(t) <==> stacks_has_type(
                        r.input@,
                        t,
                    ) by {
                        if types.contains(t) {
                            let k = choose|k: int| 0 <= k < types.len() && types[k] == t;
                            assert(r.input@[k].item == t);
                        }
                        if stacks_has_type(r.input@, t) {
                            let k = choose|k: int|
                                0 <= k < r.input@.len() && r.input@[k].item == t;
                            assert(types[k] == t);
                        }
                    }
                }
                self.input_filter = InventoryFilter::Only(inserted);
                self.output_filter = InventoryFilter::Except(extracted);
            },
            Option::None => {
                self.input_filter = InventoryFilter::Nothing;
                self.output_filter = InventoryFilter::All;
            },
        }
    }

    /// Opens both filters: anything may be inserted or pulled.
    pub fn clear_filters(self) -> (r: Inventory)
        ensures
            r.items@ == self.items@,
            r.slots == self.slots,
            r.input_filter == InventoryFilter::All,
            r.output_filter == InventoryFilter::All,
    {
        let mut opened = self;
        opened.input_filter = InventoryFilter::All;
        opened.output_filter = InventoryFilter::All;
        opened
    }

    /// Storage preset: nothing may be inserted, everything may be pulled.
    pub fn filtered_only_remove(&mut self)
        ensures
            final(self).items@ == old(self).items@,
            final(self).slots == old(self).slots,
            final(self).input_filter == InventoryFilter::Nothing,
            final(self).output_filter == InventoryFilter::All,
    {
        self.input_filter = InventoryFilter::Nothing;
        self.output_filter = InventoryFilter::All;
    }
}

impl Default for Inventory {
    /// An empty inventory with ten slots that accepts no external insertion
    /// and allows every withdrawal.
    fn default() -> (r: Inventory)
        ensures
            r.wf(),
            r.items@.len() == 0,
            r.slots == 10,
            r.input_filter == InventoryFilter::Nothing,
            r.output_filter == InventoryFilter::All,
    {
        Inventory {
            items: Vec::new(),
            slots: 10,
            input_filter: InventoryFilter::Nothing,
            output_filter: InventoryFilter::All,
        }
    }
}

/// Whether any of item type `t` is present at all.
fn avail_positive(inv: &Inventory, t: ItemType) -> (r: bool)
    requires
        inv.wf(),
    ensures
        r == (inv.count(t) > 0),
{
    proof {
        lemma_count_nonneg(*inv, t);
    }
    match find_type(&inv.items, t) {
        Option::Some(i) => {
            proof {
                lemma_stacks_count_at(inv.items@, i as int);
            }
            true
        },
        Option::None => {
            proof {
                lemma_stacks_count_absent(inv.items@, t);
            }
            false
        },
    }
}

/// Extending a request prefix by one stack extends the removal record by that
/// stack's clamped entry exactly when its type is present.
proof fn lemma_removed_stacks_take_succ(inv: Inventory, stacks: Seq<ItemAmount>, i: int)
    requires
        0 <= i < stacks.len(),
    ensures
        removed_stacks(inv, stacks.take(i + 1)) == if inv.count(stacks[i].item) == 0 {
            removed_stacks(inv, stacks.take(i))
        } else {
            removed_stacks(inv, stacks.take(i)).push(ItemAmount {
                item: stacks[i].item,
                amount: if inv.count(stacks[i].item) >= stacks[i].amount {
                    stacks[i].amount
                } else {
                    inv.count(stacks[i].item) as u32
                },
            })
        },
{
    assert(stacks.take(i + 1).drop_last() =~= stacks.take(i));
    assert(stacks.take(i + 1).last() == stacks[i]);
}

/// The position of the stack of item type `t`, if one is present.
fn find_type(items: &Vec<ItemAmount>, t: ItemType) -> (r: Option<usize>)
    ensures
        match r {
            Option::Some(i) => i < items@.len() && items@[i as int].item == t,
            Option::None => !stacks_has_type(items@, t),
        },
{
    let mut i: usize = 0;
    while i < items.len()
        invariant
            0 <= i <= items@.len(),
            forall|k: int| 0 <= k < i ==> items@[k].item != t,
        decreases items@.len() - i,
    {
        if items[i].item == t {
            return Option::Some(i);
        }
        i = i + 1;
    }
    Option::None
}

/// An inventory holds a non-negative amount of every item type.
pub proof fn lemma_count_nonneg(inv: Inventory, t: ItemType)
    ensures
        inv.count(t) >= 0,
{
    lemma_stacks_count_nonneg(inv.items@, t);
}

/// A prefix of a stack list holds no more of any type than the whole list.
pub proof fn lemma_stacks_count_take_le(stacks: Seq<ItemAmount>, t: ItemType, i: int)
    requires
        0 <= i <= stacks.len(),
    ensures
        stacks_count(stacks.take(i), t) <= stacks_count(stacks, t),
    decreases stacks.len(),
{
    if i == stacks.len() {
        assert(stacks.take(i) =~= stacks);
    } else {
        assert(stacks.take(i) =~= stacks.drop_last().take(i));
        lemma_stacks_count_take_le(stacks.drop_last(), t, i);
    }
}

/// Extending a prefix by one stack adds exactly that stack's contribution.
pub proof fn lemma_stacks_count_take_succ(stacks: Seq<ItemAmount>, i: int)
    requires
        0 <= i < stacks.len(),
    ensures
        forall|t: ItemType|
            stacks_count(stacks.take(i + 1), t) == stacks_count(stacks.take(i), t)
                + if stacks[i].item == t {
                stacks[i].amount as int
            } else {
                0
            },
{
    assert(stacks.take(i + 1).drop_last() =~= stacks.take(i));
    assert(stacks.take(i + 1).last() == stacks[i]);
}

/// Dropping the stack at position `i` lowers its type's total by exactly its
/// amount and leaves every other total unchanged.
proof fn lemma_stacks_count_remove(stacks: Seq<ItemAmount>, i: int, t: ItemType)
    requires
        0 <= i < stacks.len(),
    ensures
        stacks_count(stacks.remove(i), t) == stacks_count(stacks, t) - if stacks[i].item == t {
            stacks[i].amount as int
        } else {
            0
        },
    decreases stacks.len(),
{
    if i == stacks.len() - 1 {
        assert(stacks.remove(i) =~= stacks.drop_last());
    } else {
        assert(stacks.remove(i).drop_last() =~= stacks.drop_last().remove(i));
        lemma_stacks_count_remove(stacks.drop_last(), i, t);
        assert(stacks.remove(i).last() == stacks.last());
    }
}

/// Replacing the stack at position `i` moves the totals of the old and new
/// entry's types by exactly the amounts swapped out and in.
proof fn lemma_stacks_count_update(stacks: Seq<ItemAmount>, i: int, e: ItemAmount, t: ItemType)
    requires
        0 <= i < stacks.len(),
    ensures
        stacks_count(stacks.update(i, e), t) == stacks_count(stacks, t) - (if stacks[i].item
            == t {
            stacks[i].amount as int
        } else {
            0
        }) + if e.item == t {
            e.amount as int
        } else {
            0
        },
    decreases stacks.len(),
{
    if i == stacks.len() - 1 {
        assert(stacks.update(i, e).drop_last() =~= stacks.drop_last());
        assert(stacks.update(i, e).last() == e);
    } else {
        assert(stacks.update(i, e).drop_last() =~= stacks.drop_last().update(i, e));
        lemma_stacks_count_update(stacks.drop_last(), i, e, t);
        assert(stacks.update(i, e).last() == stacks.last());
    }
}

} // verus!
