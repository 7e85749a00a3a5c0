//! Item types and item stacks.
//!
//! An [`ItemAmount`] is one stack: an item type together with a non-negative
//! amount. Lists of stacks describe recipe sides, transfer requests and
//! pre-seeded inventory contents; such a list never names the same item type
//! twice.

use vstd::prelude::*;

verus! {

/// The closed, finite set of item types the game knows.
#[derive(Clone, Copy, PartialEq, Eq, Hash, Debug, Structural)]
pub enum ItemType {
    Wood,
    Crystal,
    Stone,
    Toy,
}

/// One stack: an item type and how many of it.
#[derive(Clone, Copy, PartialEq, Eq, Hash, Debug, Structural)]
pub struct ItemAmount {
    pub item: ItemType,
    pub amount: u32,
}

impl ItemType {
    /// The item type's display name.
    pub fn name(&self) -> (r: String)
        ensures
            r@ == self.spec_name(),
    {
        match self {
            ItemType::Wood => "wood".to_string(),
            ItemType::Crystal => "crystal".to_string(),
            ItemType::Stone => "stone".to_string(),
            ItemType::Toy => "toy".to_string(),
        }
    }

    pub open spec fn spec_name(self) -> Seq<char> {
        match self {
            ItemType::Wood => "wood"@,
            ItemType::Crystal => "crystal"@,
            ItemType::Stone => "stone"@,
            ItemType::Toy => "toy"@,
        }
    }
}

/// Total amount of item type `t` held in the stack list `stacks`.
pub open spec fn stacks_count(stacks: Seq<ItemAmount>, t: ItemType) -> int
    decreases stacks.len(),
{
    if stacks.len() == 0 {
        0
    } else {
        stacks_count(stacks.drop_last(), t) + if stacks.last().item == t {
            stacks.last().amount as int
        } else {
            0
        }
    }
}

/// A well-formed stack list names each item type at most once.
pub open spec fn stacks_wf(stacks: Seq<ItemAmount>) -> bool {
    forall|i: int, j: int|
        0 <= i < j < stacks.len() ==> stacks[i].item != stacks[j].item
}

/// Some stack in the list is of item type `t`.
pub open spec fn stacks_has_type(stacks: Seq<ItemAmount>, t: ItemType) -> bool {
    exists|i: int| 0 <= i < stacks.len() && stacks[i].item == t
}

/// A stack list holds a non-negative total of every item type.
pub proof fn lemma_stacks_count_nonneg(stacks: Seq<ItemAmount>, t: ItemType)
    ensures
        stacks_count(stacks, t) >= 0,
    decreases stacks.len(),
{
    if stacks.len() > 0 {
        lemma_stacks_count_nonneg(stacks.drop_last(), t);
    }
}

/// Appending one stack adds exactly its amount to its own type's total
/// and nothing to any other type's total.
pub proof fn lemma_stacks_count_push(stacks: Seq<ItemAmount>, e: ItemAmount, t: ItemType)
    ensures
        stacks_count(stacks.push(e), t) == stacks_count(stacks, t) + if e.item == t {
            e.amount as int
        } else {
            0
        },
{
    assert(stacks.push(e).drop_last() =~= stacks);
}

/// A list with no stack of type `t` holds zero of `t`.
pub proof fn lemma_stacks_count_absent(stacks: Seq<ItemAmount>, t: ItemType)
    requires
        !stacks_has_type(stacks, t),
    ensures
        stacks_count(stacks, t) == 0,
    decreases stacks.len(),
{
    if stacks.len() > 0 {
        assert(forall|i: int|
            0 <= i < stacks.drop_last().len() ==> stacks.drop_last()[i] == stacks[i]);
        lemma_stacks_count_absent(stacks.drop_last(), t);
        assert(stacks.last() == stacks[stacks.len() - 1]);
    }
}

/// In a well-formed list, the stack at position `i` carries its type's whole
/// total.
pub proof fn lemma_stacks_count_at(stacks: Seq<ItemAmount>, i: int)
    requires
        stacks_wf(stacks),
        0 <= i < stacks.len(),
    ensures
        stacks_count(stacks, stacks[i].item) == stacks[i].amount,
    decreases stacks.len(),
{
    let t = stacks[i].item;
    if i == stacks.len() - 1 {
        assert(!stacks_has_type(stacks.drop_last(), t));
        lemma_stacks_count_absent(stacks.drop_last(), t);
    } else {
        assert(stacks.drop_last()[i] == stacks[i]);
        lemma_stacks_count_at(stacks.drop_last(), i);
        assert(stacks.last() == stacks[stacks.len() - 1]);
    }
}

} // verus!
