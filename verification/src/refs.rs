//! Read views: an entity of the catalog together with the catalog that owns
//! it, so that a reader can walk from a category to its items, from an item
//! to the recipes that produce and consume it, and from a recipe to its
//! items, without copying a name or an index list.

use crate::graph::{Crafting, CraftingView, ItemView, RecipeView};
use vstd::prelude::*;

verus! {

/// A recipe of a catalog.
#[derive(Debug, Clone, Copy)]
pub struct RecipeRef<'a> {
    position: usize,
    crafting: &'a Crafting,
}

/// An item of a catalog.
#[derive(Debug, Clone, Copy)]
pub struct ItemRef<'a> {
    position: usize,
    crafting: &'a Crafting,
}

/// A category of a catalog.
#[derive(Debug, Clone, Copy)]
pub struct CategoryRef<'a> {
    position: usize,
    crafting: &'a Crafting,
}

impl<'a> RecipeRef<'a> {
    /// The catalog that the recipe belongs to.
    pub closed spec fn catalog(self) -> CraftingView {
        self.crafting@
    }

    /// The position of the recipe in its catalog.
    pub closed spec fn position(self) -> int {
        self.position as int
    }

    /// The recipe exists in a well-formed catalog.
    pub open spec fn wf(self) -> bool {
        &&& self.catalog().wf()
        &&& 0 <= self.position() < self.catalog().recipes.len()
    }

    /// The recipe referred to.
    pub open spec fn recipe(self) -> RecipeView {
        self.catalog().recipes[self.position()]
    }

    fn new(position: usize, crafting: &'a Crafting) -> (recipe: Self)
        ensures
            recipe.catalog() == crafting@,
            recipe.position() == position,
    {
        RecipeRef { position, crafting }
    }

    /// The input slots in their order, each with the items that can fill it.
    pub fn input(&self) -> (slots: Vec<Vec<ItemRef<'a>>>)
        requires
            self.wf(),
        ensures
            slots.len() == self.recipe().input.len(),
            forall|slot: int|
                0 <= slot < slots.len() ==> refer_to(
                    (#[trigger] slots[slot])@,
                    self.recipe().input[slot].items(),
                    self.catalog(),
                ),
    {
        let recipe = self.crafting.recipe(self.position);
        let input = recipe.input();
        let mut slots: Vec<Vec<ItemRef<'a>>> = Vec::new();
        let mut slot: usize = 0;
        while slot < input.len()
            invariant
                self.wf(),
                recipe@ == self.recipe(),
                input@ == recipe@.input,
                slot <= input@.len(),
                slots.len() == slot,
                forall|s: int|
                    0 <= s < slot ==> refer_to(
                        (#[trigger] slots[s])@,
                        self.recipe().input[s].items(),
                        self.catalog(),
                    ),
            decreases input@.len() - slot,
        {
            let accepted = input.get(slot).items();
            proof {
                assert(self.catalog().recipes[self.position()].in_bounds(
                    self.catalog().items.len() as int,
                ));
                assert(self.recipe().input[slot as int].in_bounds(
                    self.catalog().items.len() as int,
                ));
            }
            slots.push(item_refs(&accepted, self.crafting));
            slot += 1;
        }
        slots
    }

    /// The items that the recipe gives, in their order.
    pub fn output(&self) -> (items: Vec<ItemRef<'a>>)
        requires
            self.wf(),
        ensures
            refer_to(items@, self.recipe().output, self.catalog()),
    {
        let recipe = self.crafting.recipe(self.position);
        let produced = recipe.output().to_vec();
        proof {
            assert(self.catalog().recipes[self.position()].in_bounds(
                self.catalog().items.len() as int,
            ));
        }
        item_refs(&produced, self.crafting)
    }
}

/// Whether `items` refer, one for one, to the items of `catalog` at
/// `positions`.
pub open spec fn refer_to(items: Seq<ItemRef<'_>>, positions: Seq<usize>, catalog: CraftingView) -> bool {
    &&& items.len() == positions.len()
    &&& forall|k: int|
        0 <= k < items.len() ==> {
            &&& (#[trigger] items[k]).position() == positions[k]
            &&& items[k].catalog() == catalog
            &&& items[k].wf()
        }
}

/// Whether `recipes` refer, one for one, to the recipes of `catalog` at
/// `positions`.
pub open spec fn refer_to_recipes(
    recipes: Seq<RecipeRef<'_>>,
    positions: Seq<usize>,
    catalog: CraftingView,
) -> bool {
    &&& recipes.len() == positions.len()
    &&& forall|k: int|
        0 <= k < recipes.len() ==> {
            &&& (#[trigger] recipes[k]).position() == positions[k]
            &&& recipes[k].catalog() == catalog
            &&& recipes[k].wf()
        }
}

/// The items of `crafting` at `positions`.
fn item_refs<'a>(positions: &Vec<usize>, crafting: &'a Crafting) -> (items: Vec<ItemRef<'a>>)
    requires
        crafting@.wf(),
        forall|k: int| 0 <= k < positions.len() ==> positions[k] < crafting@.items.len(),
    ensures
        refer_to(items@, positions@, crafting@),
{
    let mut items: Vec<ItemRef<'a>> = Vec::new();
    let mut k: usize = 0;
    while k < positions.len()
        invariant
            crafting@.wf(),
            forall|j: int| 0 <= j < positions.len() ==> positions[j] < crafting@.items.len(),
            k <= positions.len(),
            refer_to(items@, positions@.take(k as int), crafting@),
        decreases positions.len() - k,
    {
        items.push(ItemRef::new(positions[k], crafting));
        k += 1;
    }
    proof {
        assert(positions@.take(positions.len() as int) == positions@);
    }
    items
}

/// The recipes of `crafting` at `positions`.
fn recipe_refs<'a>(positions: &Vec<usize>, crafting: &'a Crafting) -> (recipes: Vec<RecipeRef<'a>>)
    requires
        crafting@.wf(),
        forall|k: int| 0 <= k < positions.len() ==> positions[k] < crafting@.recipes.len(),
    ensures
        refer_to_recipes(recipes@, positions@, crafting@),
{
    let mut recipes: Vec<RecipeRef<'a>> = Vec::new();
    let mut k: usize = 0;
    while k < positions.len()
        invariant
            crafting@.wf(),
            forall|j: int| 0 <= j < positions.len() ==> positions[j] < crafting@.recipes.len(),
            k <= positions.len(),
            refer_to_recipes(recipes@, positions@.take(k as int), crafting@),
        decreases positions.len() - k,
    {
        recipes.push(RecipeRef::new(positions[k], crafting));
        k += 1;
    }
    proof {
        assert(positions@.take(positions.len() as int) == positions@);
    }
    recipes
}

impl<'a> ItemRef<'a> {
    /// The catalog that the item belongs to.
    pub closed spec fn catalog(self) -> CraftingView {
        self.crafting@
    }

    /// The position of the item in its catalog.
    pub closed spec fn position(self) -> int {
        self.position as int
    }

    /// The item exists in a well-formed catalog.
    pub open spec fn wf(self) -> bool {
        &&& self.catalog().wf()
        &&& 0 <= self.position() < self.catalog().items.len()
    }

    /// The item referred to.
    pub open spec fn item(self) -> ItemView {
        self.catalog().items[self.position()]
    }

    fn new(position: usize, crafting: &'a Crafting) -> (item: Self)
        ensures
            item.catalog() == crafting@,
            item.position() == position,
    {
        ItemRef { position, crafting }
    }

    /// The item's name.
    pub fn name(&self) -> (name: &'a str)
        requires
            self.wf(),
        ensures
            name@ == self.item().name,
    {
        self.crafting.item(self.position).name()
    }

    /// Where the item's image is found.
    pub fn image_url(&self) -> (image_url: &'a str)
        requires
            self.wf(),
        ensures
            image_url@ == self.item().image_url,
    {
        self.crafting.item(self.position).image_url()
    }

    /// The recipes that produce the item, in the order they were added.
    pub fn recipes(&self) -> (recipes: Vec<RecipeRef<'a>>)
        requires
            self.wf(),
        ensures
            refer_to_recipes(recipes@, self.item().recipes, self.catalog()),
    {
        let positions = self.crafting.item(self.position).recipes().to_vec();
        proof {
            assert(self.catalog().item_cross_referenced(self.position()));
            assert forall|k: int| 0 <= k < positions.len() implies positions[k]
                < self.catalog().recipes.len() by {
                assert(self.item().recipes.contains(positions[k]));
            }
        }
        recipe_refs(&positions, self.crafting)
    }

    /// The recipes that consume the item, in the order they were added.
    pub fn usage(&self) -> (recipes: Vec<RecipeRef<'a>>)
        requires
            self.wf(),
        ensures
            refer_to_recipes(recipes@, self.item().usage, self.catalog()),
    {
        let positions = self.crafting.item(self.position).usage().to_vec();
        proof {
            assert(self.catalog().item_cross_referenced(self.position()));
            assert forall|k: int| 0 <= k < positions.len() implies positions[k]
                < self.catalog().recipes.len() by {
                assert(self.item().usage.contains(positions[k]));
            }
        }
        recipe_refs(&positions, self.crafting)
    }
}

impl<'a> CategoryRef<'a> {
    /// The catalog that the category belongs to.
    pub closed spec fn catalog(self) -> CraftingView {
        self.crafting@
    }

    /// The position of the category in its catalog.
    pub closed spec fn position(self) -> int {
        self.position as int
    }

    /// The category exists in a well-formed catalog.
    pub open spec fn wf(self) -> bool {
        &&& self.catalog().wf()
        &&& 0 <= self.position() < self.catalog().categories.len()
    }

    fn new(position: usize, crafting: &'a Crafting) -> (category: Self)
        ensures
            category.catalog() == crafting@,
            category.position() == position,
    {
        CategoryRef { position, crafting }
    }

    /// The category's name.
    pub fn name(&self) -> (name: &'a str)
        requires
            self.wf(),
        ensures
            name@ == self.catalog().categories[self.position()].name,
    {
        self.crafting.category(self.position).name()
    }

    /// The items of the category, in the order they were registered.
    pub fn items(&self) -> (items: Vec<ItemRef<'a>>)
        requires
            self.wf(),
        ensures
            items.len() == self.catalog().categories[self.position()].end
                - self.catalog().categories[self.position()].start,
            forall|k: int|
                0 <= k < items.len() ==> {
                    &&& (#[trigger] items[k]).position()
                        == self.catalog().categories[self.position()].start + k
                    &&& items[k].catalog() == self.catalog()
                    &&& items[k].wf()
                },
    {
        let category = self.crafting.category(self.position);
        let start = category.start();
        let end = category.end();
        proof {
            crate::graph::lemma_category_in_bounds(self.catalog(), self.position());
        }
        let mut items: Vec<ItemRef<'a>> = Vec::new();
        let mut position = start;
        while position < end
            invariant
                self.wf(),
                start <= position <= end <= self.catalog().items.len(),
                items.len() == position - start,
                forall|k: int|
                    0 <= k < items.len() ==> {
                        &&& (#[trigger] items[k]).position() == start + k
                        &&& items[k].catalog() == self.catalog()
                        &&& items[k].wf()
                    },
            decreases end - position,
        {
            items.push(ItemRef::new(position, self.crafting));
            position += 1;
        }
        items
    }
}

impl Crafting {
    /// The categories in declaration order.
    pub fn categories(&self) -> (categories: Vec<CategoryRef<'_>>)
        requires
            self@.wf(),
        ensures
            categories.len() == self@.categories.len(),
            forall|k: int|
                0 <= k < categories.len() ==> {
                    &&& (#[trigger] categories[k]).position() == k
                    &&& categories[k].catalog() == self@
                    &&& categories[k].wf()
                },
    {
        let mut categories: Vec<CategoryRef<'_>> = Vec::new();
        let mut position: usize = 0;
        while position < self.category_count()
            invariant
                self@.wf(),
                position <= self@.categories.len(),
                categories.len() == position,
                forall|k: int|
                    0 <= k < categories.len() ==> {
                        &&& (#[trigger] categories[k]).position() == k
                        &&& categories[k].catalog() == self@
                        &&& categories[k].wf()
                    },
            decreases self@.categories.len() - position,
        {
            categories.push(CategoryRef::new(position, self));
            position += 1;
        }
        categories
    }
}

} // verus!
