//! The crafter state machine: per-entity conversion of input stacks into
//! output stacks over time.
//!
//! A crafter is advanced once per simulation tick by the tick's elapsed time.
//! `Idle` does nothing; `Pending` waits until the inventory covers the
//! recipe's inputs, consumes them atomically and moves to `Assembling`;
//! `Assembling` accumulates progress and, in the tick that crosses the
//! recipe's cost, adds the outputs, reports the completion, resets progress
//! to zero and either re-enters `Pending` (repeat flag set) or returns to
//! `Idle`. Insufficient input is a steady no-op, never an error.

use vstd::prelude::*;

use crate::inventory::Inventory;
use crate::items::{ItemAmount, ItemType, stacks_count, stacks_has_type};
use crate::recipes::{AvailableRecipes, Recipe, RecipeType, is_catalog_recipe, same_recipe};

verus! {

/// The crafter's state tag. The `repeat` flag carried by the two active
/// variants survives the `Pending` to `Assembling` crossing and back.
#[derive(Clone, Copy, PartialEq, Eq, Hash, Debug, Structural)]
pub enum CrafterState {
    /// No crafting under way; waiting for a recipe assignment.
    Idle,
    /// A recipe is wanted; inputs not yet consumed.
    Pending(bool),
    /// Inputs consumed; progress accumulating toward the recipe's cost.
    Assembling(bool),
}

/// The per-entity crafting state machine.
#[derive(Debug)]
pub struct Crafter {
    /// The recipe being crafted, if any.
    pub recipe: Option<Recipe>,
    /// Time units accumulated so far; strictly below the recipe's cost while
    /// assembling, zero otherwise.
    pub progress: u64,
    pub state: CrafterState,
}

impl Crafter {
    /// Structural invariant: any held recipe is well formed; progress is
    /// strictly below the cost while assembling (which requires a recipe) and
    /// zero in every other state.
    pub open spec fn wf(self) -> bool {
        &&& match self.recipe {
            Option::Some(r) => r.wf(),
            Option::None => true,
        }
        &&& match self.state {
            CrafterState::Assembling(_) => self.recipe is Some && (self.progress as int)
                < self.recipe->Some_0.cost,
            _ => self.progress == 0,
        }
    }

    /// Whether a tick of `elapsed` time units crosses the completion
    /// threshold.
    pub open spec fn completes(self, elapsed: u64) -> bool {
        &&& self.state is Assembling
        &&& self.recipe is Some
        &&& elapsed >= self.recipe->Some_0.cost - self.progress
    }

    /// An idle crafter with no recipe.
    pub fn new() -> (r: Crafter)
        ensures
            r.wf(),
            r.recipe is None,
            r.progress == 0,
            r.state == CrafterState::Idle,
    {
        Crafter { recipe: Option::None, progress: 0, state: CrafterState::Idle }
    }

    /// Advances the state machine by one tick of `elapsed` time units,
    /// consuming from and producing into `inventory` directly (filters do not
    /// apply). Returns the completed recipe in the tick that crosses the cost
    /// threshold and `None` in every other tick.
    pub fn advance(&mut self, inventory: &mut Inventory, elapsed: u64) -> (completed: Option<
        Recipe,
    >)
        requires
            old(self).wf(),
            old(inventory).wf(),
            old(self).completes(elapsed) ==> forall|t: ItemType|
                old(inventory).count(t) + stacks_count(old(self).recipe->Some_0.output@, t)
                    <= u32::MAX,
        ensures
            final(self).wf(),
            final(inventory).wf(),
            advance_rel(
                *old(self),
                *old(inventory),
                elapsed,
                *final(self),
                *final(inventory),
                completed,
            ),
    {
        match self.state {
            CrafterState::Idle => Option::None,
            CrafterState::Pending(repeating) => {
                match &self.recipe {
                    Option::Some(recipe) => {
                        if inventory.remove_items(&recipe.input) {
                            self.state = CrafterState::Assembling(repeating);
                        }
                        Option::None
                    },
                    Option::None => Option::None,
                }
            },
            CrafterState::Assembling(repeating) => {
                match &self.recipe {
                    Option::Some(recipe) => {
                        let remaining = recipe.cost - self.progress;
                        if elapsed >= remaining {
                            inventory.add_items(&recipe.output);
                            let completed = clone_recipe(recipe);
                            self.progress = 0;
                            self.state = if repeating {
                                CrafterState::Pending(true)
                            } else {
                                CrafterState::Idle
                            };
                            Option::Some(completed)
                        } else {
                            self.progress = self.progress + elapsed;
                            Option::None
                        }
                    },
                    Option::None => Option::None,
                }
            },
        }
    }

    /// Cancels crafting: refunds the recipe's input stacks only when they
    /// were already consumed — that is, only when the state is `Assembling`,
    /// since in `Pending` nothing was yet removed — then resets progress,
    /// returns to `Idle` and clears the recipe.
    pub fn cancel(&mut self, inventory: &mut Inventory)
        requires
            old(self).wf(),
            old(inventory).wf(),
            old(self).state is Assembling ==> forall|t: ItemType|
                old(inventory).count(t) + stacks_count(old(self).recipe->Some_0.input@, t)
                    <= u32::MAX,
        ensures
            final(self).wf(),
            final(inventory).wf(),
            final(self).state == CrafterState::Idle,
            final(self).progress == 0,
            final(self).recipe is None,
            if old(self).state is Assembling {
                forall|t: ItemType|
                    final(inventory).count(t) == old(inventory).count(t) + stacks_count(
                        old(self).recipe->Some_0.input@,
                        t,
                    )
            } else {
                *final(inventory) == *old(inventory)
            },
            final(inventory).same_shape(*old(inventory)),
    {
        let assembling = matches!(self.state, CrafterState::Assembling(_));
        if assembling {
            match &self.recipe {
                Option::Some(recipe) => {
                    inventory.add_items(&recipe.input);
                },
                Option::None => {},
            }
        }
        self.state = CrafterState::Idle;
        self.progress = 0;
        self.recipe = Option::None;
    }

    /// Assigns a recipe and enters `Pending` with the given repeat flag: the
    /// only way to leave `Idle`. On a crafter that is not idle, nothing
    /// happens and `false` is returned.
    pub fn start_craft(&mut self, recipe: Recipe, repeat: bool) -> (r: bool)
        requires
            old(self).wf(),
            recipe.wf(),
        ensures
            final(self).wf(),
            r == (old(self).state is Idle),
            r ==> final(self).recipe == Option::Some(recipe) && final(self).state
                == CrafterState::Pending(repeat) && final(self).progress == 0,
            !r ==> *final(self) == *old(self),
    {
        match self.state {
            CrafterState::Idle => {
                self.recipe = Option::Some(recipe);
                self.state = CrafterState::Pending(repeat);
                self.progress = 0;
                true
            },
            _ => false,
        }
    }
}

/// The recipe identifier a recipe-cycling action would select: the first
/// unlocked identifier after the current one in the cyclic catalog order, or
/// the designated default when the crafter has no recipe yet.
pub open spec fn selected_recipe_type(c: Crafter, available_recipes: AvailableRecipes) -> RecipeType {
    match c.recipe {
        Option::Some(r) => r.recipe_type.spec_next_available(available_recipes),
        Option::None => RecipeType::WoodToToy,
    }
}

/// Whether a recipe-cycling action would change the crafter's recipe.
pub open spec fn selection_changes(c: Crafter, available_recipes: AvailableRecipes) -> bool {
    match c.recipe {
        Option::Some(r) => selected_recipe_type(c, available_recipes) != r.recipe_type,
        Option::None => true,
    }
}

impl Crafter {
    /// Cycles to the next unlocked recipe and re-enters `Pending` with the
    /// repeat flag set. When the selection lands on a different recipe, the
    /// crafter's inventory is first force-flushed into `receiver` — the
    /// filters are recipe-specific, and stale contents under the old filter
    /// would otherwise be unreachable — and then refiltered for the new
    /// recipe. Returns whether the recipe changed.
    pub fn select_next_recipe(
        &mut self,
        inventory: &mut Inventory,
        receiver: &mut Inventory,
        available_recipes: &AvailableRecipes,
    ) -> (changed: bool)
        requires
            old(self).wf(),
            old(inventory).wf(),
            old(receiver).wf(),
            selection_changes(*old(self), *available_recipes) ==> forall|t: ItemType|
                old(receiver).count(t) + old(inventory).count(t) <= u32::MAX,
        ensures
            final(self).wf(),
            final(inventory).wf(),
            final(receiver).wf(),
            changed == selection_changes(*old(self), *available_recipes),
            final(self).state == CrafterState::Pending(true),
            final(self).progress == 0,
            (final(self).recipe matches Option::Some(rec) && is_catalog_recipe(
                rec,
                selected_recipe_type(*old(self), *available_recipes),
            )),
            if changed {
                &&& forall|t: ItemType| final(inventory).count(t) == 0
                &&& forall|t: ItemType|
                    final(receiver).count(t) == old(receiver).count(t) + old(inventory).count(t)
                &&& final(receiver).same_shape(*old(receiver))
                &&& final(inventory).slots == old(inventory).slots
                &&& forall|t: ItemType|
                    final(inventory).input_filter.allows(t) <==> stacks_has_type(
                        final(self).recipe->Some_0.input@,
                        t,
                    )
                &&& forall|t: ItemType|
                    final(inventory).output_filter.allows(t) <==> !stacks_has_type(
                        final(self).recipe->Some_0.input@,
                        t,
                    )
            } else {
                *final(inventory) == *old(inventory) && *final(receiver) == *old(receiver)
            },
    {
        let new_type = match &self.recipe {
            Option::Some(r) => r.recipe_type.next_available_recipe(available_recipes),
            Option::None => RecipeType::WoodToToy,
        };
        let changed = match &self.recipe {
            Option::Some(r) => r.recipe_type != new_type,
            Option::None => true,
        };
        self.recipe = Option::Some(Recipe::lookup(new_type));
        self.state = CrafterState::Pending(true);
        self.progress = 0;
        if changed {
            inventory.force_empty_into_other(receiver);
            let ghost flushed = *inventory;
            match &self.recipe {
                Option::Some(r) => inventory.filtered_for(Option::Some(r)),
                Option::None => {},
            }
            proof {
                assert forall|t: ItemType| inventory.count(t) == 0 by {
                    assert(flushed.count(t) == 0);
                    assert(inventory.items@ == flushed.items@);
                }
            }
        }
        changed
    }
}

impl Default for Crafter {
    /// A crafter as a freshly placed crafting structure starts: no recipe
    /// yet, repeat flag set, waiting in `Pending` for a recipe and inputs.
    fn default() -> (r: Crafter)
        ensures
            r.wf(),
            r.recipe is None,
            r.progress == 0,
            r.state == CrafterState::Pending(true),
    {
        Crafter { recipe: Option::None, progress: 0, state: CrafterState::Pending(true) }
    }
}

/// How one tick of `elapsed` time units relates a crafter and its inventory
/// before the tick (`c0`, `i0`) to the pair after it (`c1`, `i1`) and to the
/// completion report `ev`. This is the full transition table of the state
/// machine.
pub open spec fn advance_rel(
    c0: Crafter,
    i0: Inventory,
    elapsed: u64,
    c1: Crafter,
    i1: Inventory,
    ev: Option<Recipe>,
) -> bool {
    match c0.state {
        CrafterState::Idle => c1 == c0 && i1 == i0 && ev is None,
        CrafterState::Pending(rep) => match c0.recipe {
            Option::None => c1 == c0 && i1 == i0 && ev is None,
            Option::Some(rec) => if i0.has_stacks(rec.input@) {
                &&& c1.recipe == c0.recipe
                &&& c1.progress == 0
                &&& c1.state == CrafterState::Assembling(rep)
                &&& forall|t: ItemType| i1.count(t) == i0.count(t) - stacks_count(rec.input@, t)
                &&& i1.same_shape(i0)
                &&& ev is None
            } else {
                c1 == c0 && i1 == i0 && ev is None
            },
        },
        CrafterState::Assembling(rep) => match c0.recipe {
            Option::None => c1 == c0 && i1 == i0 && ev is None,
            Option::Some(rec) => if elapsed < rec.cost - c0.progress {
                &&& c1.recipe == c0.recipe
                &&& c1.progress == c0.progress + elapsed
                &&& c1.state == c0.state
                &&& i1 == i0
                &&& ev is None
            } else {
                &&& c1.recipe == c0.recipe
                &&& c1.progress == 0
                &&& c1.state == (if rep {
                    CrafterState::Pending(true)
                } else {
                    CrafterState::Idle
                })
                &&& forall|t: ItemType| i1.count(t) == i0.count(t) + stacks_count(rec.output@, t)
                &&& i1.same_shape(i0)
                &&& (ev matches Option::Some(done) && same_recipe(done, rec))
            },
        },
    }
}

/// A copy of a recipe with the same identifier, sides and cost.
fn clone_recipe(recipe: &Recipe) -> (r: Recipe)
    ensures
        same_recipe(r, *recipe),
{
    let mut input: Vec<ItemAmount> = Vec::new();
    let mut i: usize = 0;
    while i < recipe.input.len()
        invariant
            0 <= i <= recipe.input@.len(),
            input@ == recipe.input@.take(i as int),
        decreases recipe.input@.len() - i,
    {
        input.push(recipe.input[i]);
        proof {
            assert(recipe.input@.take(i + 1) =~= recipe.input@.take(i as int).push(
                recipe.input@[i as int],
            ));
        }
        i = i + 1;
    }
    let mut output: Vec<ItemAmount> = Vec::new();
    let mut j: usize = 0;
    while j < recipe.output.len()
        invariant
            0 <= j <= recipe.output@.len(),
            output@ == recipe.output@.take(j as int),
        decreases recipe.output@.len() - j,
    {
        output.push(recipe.output[j]);
        proof {
            assert(recipe.output@.take(j + 1) =~= recipe.output@.take(j as int).push(
                recipe.output@[j as int],
            ));
        }
        j = j + 1;
    }
    let r = Recipe { recipe_type: recipe.recipe_type, input, output, cost: recipe.cost };
    proof {
        assert(recipe.input@.take(recipe.input@.len() as int) =~= recipe.input@);
        assert(recipe.output@.take(recipe.output@.len() as int) =~= recipe.output@);
    }
    r
}

/// Law (progress monotonicity): while assembling, progress strictly
/// increases each tick by the tick's elapsed time until the completion
/// threshold is crossed, and resets to exactly zero in the tick that crosses
/// it.
pub proof fn lemma_progress_monotonic(
    c0: Crafter,
    i0: Inventory,
    elapsed: u64,
    c1: Crafter,
    i1: Inventory,
    ev: Option<Recipe>,
)
    requires
        c0.wf(),
        c0.state is Assembling,
        advance_rel(c0, i0, elapsed, c1, i1, ev),
    ensures
        c0.completes(elapsed) ==> c1.progress == 0,
        !c0.completes(elapsed) ==> c1.progress == c0.progress + elapsed,
        elapsed > 0 && !c0.completes(elapsed) ==> c1.progress > c0.progress,
{
}

/// Law (exactly one completion signal): a tick reports a completion exactly
/// when it crosses the cost threshold — however large the tick's elapsed
/// time — and the report carries the crafter's recipe. A tick never reports
/// more than one completion, the report being a single optional value.
pub proof fn lemma_one_completion_signal(
    c0: Crafter,
    i0: Inventory,
    elapsed: u64,
    c1: Crafter,
    i1: Inventory,
    ev: Option<Recipe>,
)
    requires
        c0.wf(),
        advance_rel(c0, i0, elapsed, c1, i1, ev),
    ensures
        ev is Some <==> c0.completes(elapsed),
        ev is Some ==> c0.recipe is Some && same_recipe(ev->Some_0, c0.recipe->Some_0),
{
}

/// Law (repeat semantics, cycling): a crafter whose repeat flag is set never
/// reaches `Idle`, and from `Pending` with sufficient input it enters
/// `Assembling` in the same tick.
pub proof fn lemma_repeat_never_idle(
    c0: Crafter,
    i0: Inventory,
    elapsed: u64,
    c1: Crafter,
    i1: Inventory,
    ev: Option<Recipe>,
)
    requires
        c0.wf(),
        advance_rel(c0, i0, elapsed, c1, i1, ev),
        c0.state == CrafterState::Pending(true) || c0.state == CrafterState::Assembling(true),
    ensures
        c1.state == CrafterState::Pending(true) || c1.state == CrafterState::Assembling(true),
        c0.state == CrafterState::Pending(true) && c0.recipe is Some && i0.has_stacks(
            c0.recipe->Some_0.input@,
        ) ==> c1.state == CrafterState::Assembling(true),
{
}

/// Law (repeat semantics, single run): with the repeat flag clear, the
/// completing tick returns the crafter to `Idle`; an idle crafter stays idle
/// and untouched, reporting nothing, until a recipe is assigned.
pub proof fn lemma_no_repeat_single_run(
    c0: Crafter,
    i0: Inventory,
    elapsed: u64,
    c1: Crafter,
    i1: Inventory,
    ev: Option<Recipe>,
)
    requires
        c0.wf(),
        advance_rel(c0, i0, elapsed, c1, i1, ev),
    ensures
        c0.state == CrafterState::Assembling(false) && c0.completes(elapsed) ==> c1.state
            == CrafterState::Idle,
        c0.state is Idle ==> c1 == c0 && i1 == i0 && ev is None,
{
}

} // verus!
