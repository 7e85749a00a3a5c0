//! Recipes: static conversion rules from input stacks to output stacks with
//! a time cost, a fixed cyclic order over the recipe identifiers, and the
//! mutable set of unlocked identifiers that gates recipe cycling.

use vstd::prelude::*;

use crate::items::{ItemAmount, ItemType, stacks_wf};

verus! {

/// Identifier of a recipe in the static catalog.
#[derive(Clone, Copy, PartialEq, Eq, Hash, Debug, Structural)]
pub enum RecipeType {
    WoodToToy,
    CrystalToToy,
}

/// A static conversion rule: consume `input`, take `cost` time units, emit
/// `output`.
#[derive(Debug)]
pub struct Recipe {
    pub recipe_type: RecipeType,
    /// Stacks consumed when assembly starts; no item type appears twice.
    pub input: Vec<ItemAmount>,
    /// Stacks produced on completion; no item type appears twice.
    pub output: Vec<ItemAmount>,
    /// Time to craft, in time units; always positive.
    pub cost: u64,
}

impl Recipe {
    /// A recipe read from the catalog: positive cost and duplicate-free
    /// sides.
    pub open spec fn wf(self) -> bool {
        &&& self.cost > 0
        &&& stacks_wf(self.input@)
        &&& stacks_wf(self.output@)
    }

    /// The catalog: the fixed recipe definition for each identifier.
    pub fn lookup(recipe_type: RecipeType) -> (r: Recipe)
        ensures
            r.wf(),
            r.recipe_type == recipe_type,
            is_catalog_recipe(r, recipe_type),
    {
        match recipe_type {
            RecipeType::WoodToToy => {
                let mut input: Vec<ItemAmount> = Vec::new();
                input.push(ItemAmount { item: ItemType::Wood, amount: 3 });
                let mut output: Vec<ItemAmount> = Vec::new();
                output.push(ItemAmount { item: ItemType::Toy, amount: 1 });
                proof {
                    assert(input@ =~= seq![(ItemAmount { item: ItemType::Wood, amount: 3 })]);
                    assert(output@ =~= seq![(ItemAmount { item: ItemType::Toy, amount: 1 })]);
                }
                Recipe { recipe_type, input, output, cost: 5 }
            },
            RecipeType::CrystalToToy => {
                let mut input: Vec<ItemAmount> = Vec::new();
                input.push(ItemAmount { item: ItemType::Crystal, amount: 1 });
                let mut output: Vec<ItemAmount> = Vec::new();
                output.push(ItemAmount { item: ItemType::Toy, amount: 1 });
                proof {
                    assert(input@ =~= seq![(ItemAmount { item: ItemType::Crystal, amount: 1 })]);
                    assert(output@ =~= seq![(ItemAmount { item: ItemType::Toy, amount: 1 })]);
                }
                Recipe { recipe_type, input, output, cost: 10 }
            },
        }
    }
}

/// Whether `r` is exactly the catalog's definition for `recipe_type`.
pub open spec fn is_catalog_recipe(r: Recipe, recipe_type: RecipeType) -> bool {
    &&& r.wf()
    &&& r.recipe_type == recipe_type
    &&& match recipe_type {
        RecipeType::WoodToToy => {
            &&& r.input@ == seq![(ItemAmount { item: ItemType::Wood, amount: 3 })]
            &&& r.output@ == seq![(ItemAmount { item: ItemType::Toy, amount: 1 })]
            &&& r.cost == 5
        },
        RecipeType::CrystalToToy => {
            &&& r.input@ == seq![(ItemAmount { item: ItemType::Crystal, amount: 1 })]
            &&& r.output@ == seq![(ItemAmount { item: ItemType::Toy, amount: 1 })]
            &&& r.cost == 10
        },
    }
}

/// Two recipes with the same identifier, the same sides and the same cost.
pub open spec fn same_recipe(a: Recipe, b: Recipe) -> bool {
    &&& a.recipe_type == b.recipe_type
    &&& a.input@ == b.input@
    &&& a.output@ == b.output@
    &&& a.cost == b.cost
}

/// The set of recipe identifiers unlocked so far; read by recipe cycling and
/// grown externally by a research system.
#[derive(Debug)]
pub struct AvailableRecipes(pub Vec<RecipeType>);

impl AvailableRecipes {
    /// Whether `recipe_type` is unlocked.
    pub open spec fn spec_contains(self, recipe_type: RecipeType) -> bool {
        self.0@.contains(recipe_type)
    }

    /// Some recipe is unlocked at all.
    pub open spec fn any_available(self) -> bool {
        exists|x: RecipeType| self.spec_contains(x)
    }

    /// An empty unlock set.
    pub fn new() -> (r: AvailableRecipes)
        ensures
            forall|x: RecipeType| !r.spec_contains(x),
    {
        AvailableRecipes(Vec::new())
    }

    /// The unlock set holding every recipe identifier.
    pub fn all() -> (r: AvailableRecipes)
        ensures
            forall|x: RecipeType| r.spec_contains(x),
    {
        let mut listed: Vec<RecipeType> = Vec::new();
        listed.push(RecipeType::WoodToToy);
        listed.push(RecipeType::CrystalToToy);
        let r = AvailableRecipes(listed);
        proof {
            assert forall|x: RecipeType| r.spec_contains(x) by {
                match x {
                    RecipeType::WoodToToy => assert(r.0@[0] == x),
                    RecipeType::CrystalToToy => assert(r.0@[1] == x),
                }
            }
        }
        r
    }

    /// Runtime check of [`AvailableRecipes::spec_contains`].
    pub fn contains(&self, recipe_type: RecipeType) -> (r: bool)
        ensures
            r == self.spec_contains(recipe_type),
    {
        let mut i: usize = 0;
        while i < self.0.len()
            invariant
                0 <= i <= self.0@.len(),
                forall|k: int| 0 <= k < i ==> self.0@[k] != recipe_type,
            decreases self.0@.len() - i,
        {
            if self.0[i] == recipe_type {
                return true;
            }
            i = i + 1;
        }
        false
    }

    /// Unlocks `recipe_type`, leaving every other identifier's status as it
    /// was.
    pub fn unlock(&mut self, recipe_type: RecipeType)
        ensures
            forall|x: RecipeType|
                final(self).spec_contains(x) == (old(self).spec_contains(x) || x == recipe_type),
    {
        if !self.contains(recipe_type) {
            let ghost before = self.0@;
            self.0.push(recipe_type);
            proof {
                assert forall|x: RecipeType|
                    self.spec_contains(x) == (old(self).spec_contains(x) || x
                        == recipe_type) by {
                    if x == recipe_type {
                        assert(self.0@[before.len() as int] == x);
                    } else if before.contains(x) {
                        let k = choose|k: int| 0 <= k < before.len() && before[k] == x;
                        assert(self.0@[k] == x);
                    } else {
                        assert(forall|k: int| 0 <= k < self.0@.len() ==> self.0@[k] != x);
                    }
                }
            }
        }
    }
}

impl RecipeType {
    /// The identifier immediately after this one in the fixed cyclic catalog
    /// order.
    pub open spec fn spec_next(self) -> RecipeType {
        match self {
            RecipeType::WoodToToy => RecipeType::CrystalToToy,
            RecipeType::CrystalToToy => RecipeType::WoodToToy,
        }
    }

    /// Runtime step along the fixed cyclic catalog order.
    pub fn next(self) -> (r: RecipeType)
        ensures
            r == self.spec_next(),
    {
        match self {
            RecipeType::WoodToToy => RecipeType::CrystalToToy,
            RecipeType::CrystalToToy => RecipeType::WoodToToy,
        }
    }

    /// The first unlocked identifier in the cyclic catalog order starting
    /// immediately after `self`, or the designated default when nothing is
    /// unlocked.
    pub open spec fn spec_next_available(self, available_recipes: AvailableRecipes) -> RecipeType {
        if available_recipes.spec_contains(self.spec_next()) {
            self.spec_next()
        } else if available_recipes.spec_contains(self.spec_next().spec_next()) {
            self.spec_next().spec_next()
        } else {
            RecipeType::WoodToToy
        }
    }

    /// Starting from the identifier immediately after `self` in the cyclic
    /// catalog order, returns the first unlocked identifier, wrapping around;
    /// when nothing is unlocked, returns the designated default,
    /// `RecipeType::WoodToToy`.
    pub fn next_available_recipe(self, available_recipes: &AvailableRecipes) -> (r: RecipeType)
        ensures
            r == self.spec_next_available(*available_recipes),
            available_recipes.spec_contains(self.spec_next()) ==> r == self.spec_next(),
            !available_recipes.spec_contains(self.spec_next())
                && available_recipes.spec_contains(self.spec_next().spec_next()) ==> r
                == self.spec_next().spec_next(),
            available_recipes.any_available() ==> available_recipes.spec_contains(r),
            !available_recipes.any_available() ==> r == RecipeType::WoodToToy,
    {
        let first = self.next();
        if available_recipes.contains(first) {
            return first;
        }
        let second = first.next();
        if available_recipes.contains(second) {
            return second;
        }
        proof {
            if available_recipes.any_available() {
                let x = choose|x: RecipeType| available_recipes.spec_contains(x);
                assert(x == first || x == second);
            }
        }
        RecipeType::WoodToToy
    }

    /// The recipe identifier's display name.
    pub fn name(&self) -> (r: String)
        ensures
            r@ == self.spec_name(),
    {
        match self {
            RecipeType::WoodToToy => "core::wood-to-toy".to_string(),
            RecipeType::CrystalToToy => "core::crystal-to-toy".to_string(),
        }
    }

    pub open spec fn spec_name(self) -> Seq<char> {
        match self {
            RecipeType::WoodToToy => "core::wood-to-toy"@,
            RecipeType::CrystalToToy => "core::crystal-to-toy"@,
        }
    }
}

} // verus!
