//! Taking a catalog up again from its stored parts. The parts come from
//! outside, so nothing is believed of them: they make a catalog only where
//! the categories tile the items, every recipe names items that exist, and
//! each item's lists agree with the recipes.

use crate::error::DecodeError;
use crate::graph::{stored, Category, Crafting, CraftingView, Item, Recipe};
use vstd::prelude::*;

verus! {

/// Whether the categories tile the items.
fn tiles(categories: &Vec<Category>, items: &Vec<Item>, recipes: &Vec<Recipe>) -> (tiled: bool)
    ensures
        tiled == stored(categories@, items@, recipes@).tiled(),
{
    let ghost catalog = stored(categories@, items@, recipes@);
    if categories.len() == 0 {
        return items.len() == 0;
    }
    let mut next: usize = 0;
    let mut c: usize = 0;
    while c < categories.len()
        invariant
            catalog == stored(categories@, items@, recipes@),
            categories.len() > 0,
            c <= categories.len(),
            c == 0 ==> next == 0,
            c > 0 ==> catalog.categories[0].start == 0 && next == catalog.categories[c - 1].end,
            forall|b: int| 0 <= b < c ==> (#[trigger] catalog.categories[b]).start
                <= catalog.categories[b].end,
            forall|a: int, b: int|
                0 <= a && b == a + 1 && b < c ==> (#[trigger] catalog.categories[a]).end == (
                #[trigger] catalog.categories[b]).start,
        decreases categories.len() - c,
    {
        let category = &categories[c];
        assert(category@ == catalog.categories[c as int]);
        if category.start() != next {
            proof {
                if c > 0 {
                    assert(catalog.categories[c - 1].end != catalog.categories[c as int].start);
                }
            }
            return false;
        }
        if category.end() < category.start() {
            return false;
        }
        next = category.end();
        c += 1;
    }
    next == items.len()
}

/// Whether every recipe names items that exist.
fn recipes_fit(categories: &Vec<Category>, items: &Vec<Item>, recipes: &Vec<Recipe>) -> (fit: bool)
    ensures
        fit == stored(categories@, items@, recipes@).recipes_in_bounds(),
{
    let ghost catalog = stored(categories@, items@, recipes@);
    let mut r: usize = 0;
    while r < recipes.len()
        invariant
            catalog == stored(categories@, items@, recipes@),
            r <= recipes.len(),
            forall|q: int|
                0 <= q < r ==> (#[trigger] catalog.recipes[q]).in_bounds(items.len() as int),
        decreases recipes.len() - r,
    {
        if !recipes[r].fits(items.len()) {
            assert(!catalog.recipes[r as int].in_bounds(catalog.items.len() as int));
            return false;
        }
        r += 1;
    }
    true
}

/// Whether the lists of the item at `position` are sorted without
/// repetition and hold exactly the recipes that produce, respectively
/// consume, the item.
fn item_agrees(
    categories: &Vec<Category>,
    items: &Vec<Item>,
    recipes: &Vec<Recipe>,
    position: usize,
) -> (agrees: bool)
    requires
        position < items.len(),
    ensures
        agrees == stored(categories@, items@, recipes@).item_cross_referenced(position as int),
{
    let ghost catalog = stored(categories@, items@, recipes@);
    let item = &items[position];
    let produced_by = item.recipes();
    let consumed_by = item.usage();
    assert(item@ == catalog.items[position as int]);
    if !produced_by.is_increasing() || !consumed_by.is_increasing() {
        return false;
    }
    let mut k: usize = 0;
    while k < produced_by.len()
        invariant
            catalog == stored(categories@, items@, recipes@),
            produced_by@ == catalog.items[position as int].recipes,
            k <= produced_by@.len(),
            forall|j: int|
                0 <= j < k ==> (#[trigger] produced_by@[j]) < recipes.len()
                    && catalog.recipes[produced_by@[j] as int].produces(position),
        decreases produced_by@.len() - k,
    {
        let r = produced_by.get(k);
        if r >= recipes.len() || !recipes[r].produces(position) {
            assert(produced_by@.contains(r));
            return false;
        }
        k += 1;
    }
    let mut k: usize = 0;
    while k < consumed_by.len()
        invariant
            catalog == stored(categories@, items@, recipes@),
            consumed_by@ == catalog.items[position as int].usage,
            k <= consumed_by@.len(),
            forall|j: int|
                0 <= j < k ==> (#[trigger] consumed_by@[j]) < recipes.len()
                    && catalog.recipes[consumed_by@[j] as int].consumes(position),
        decreases consumed_by@.len() - k,
    {
        let r = consumed_by.get(k);
        if r >= recipes.len() || !recipes[r].consumes(position) {
            assert(consumed_by@.contains(r));
            return false;
        }
        k += 1;
    }
    let mut r: usize = 0;
    while r < recipes.len()
        invariant
            catalog == stored(categories@, items@, recipes@),
            produced_by@ == catalog.items[position as int].recipes,
            consumed_by@ == catalog.items[position as int].usage,
            r <= recipes.len(),
            forall|q: usize|
                q < r && catalog.recipes[q as int].produces(position)
                    ==> #[trigger] produced_by@.contains(q),
            forall|q: usize|
                q < r && catalog.recipes[q as int].consumes(position)
                    ==> #[trigger] consumed_by@.contains(q),
        decreases recipes.len() - r,
    {
        let recipe = &recipes[r];
        assert(recipe@ == catalog.recipes[r as int]);
        if recipe.produces(position) && !produced_by.contains(r) {
            return false;
        }
        if recipe.consumes(position) && !consumed_by.contains(r) {
            return false;
        }
        r += 1;
    }
    true
}

/// Whether every item's lists agree with the recipes.
fn items_agree(categories: &Vec<Category>, items: &Vec<Item>, recipes: &Vec<Recipe>) -> (agree:
    bool)
    ensures
        agree == stored(categories@, items@, recipes@).cross_referenced(),
{
    let ghost catalog = stored(categories@, items@, recipes@);
    let mut position: usize = 0;
    while position < items.len()
        invariant
            catalog == stored(categories@, items@, recipes@),
            position <= items.len(),
            forall|i: int| 0 <= i < position ==> #[trigger] catalog.item_cross_referenced(i),
        decreases items.len() - position,
    {
        if !item_agrees(categories, items, recipes, position) {
            return false;
        }
        position += 1;
    }
    true
}

/// What stored parts that describe `catalog` give: the catalog where it is
/// well formed, else the first of the failures that holds.
pub open spec fn decode(catalog: CraftingView) -> Result<CraftingView, DecodeError> {
    if !catalog.tiled() {
        Err(DecodeError::Categories)
    } else if !catalog.recipes_in_bounds() {
        Err(DecodeError::Recipes)
    } else if !catalog.cross_referenced() {
        Err(DecodeError::CrossReferences)
    } else {
        Ok(catalog)
    }
}

impl Crafting {
    /// The catalog of these parts, where they make one. The checks are made
    /// in the order of the failures: the categories, then the recipes, then
    /// the items' lists.
    pub fn from_parts(categories: Vec<Category>, items: Vec<Item>, recipes: Vec<Recipe>) -> (result:
        Result<Crafting, DecodeError>)
        ensures
            match result {
                Ok(crafting) => decode(stored(categories@, items@, recipes@)) == Ok::<
                    CraftingView,
                    DecodeError,
                >(crafting@) && crafting@.wf(),
                Err(error) => decode(stored(categories@, items@, recipes@)) == Err::<
                    CraftingView,
                    DecodeError,
                >(error),
            },
    {
        if !tiles(&categories, &items, &recipes) {
            return Err(DecodeError::Categories);
        }
        if !recipes_fit(&categories, &items, &recipes) {
            return Err(DecodeError::Recipes);
        }
        if !items_agree(&categories, &items, &recipes) {
            return Err(DecodeError::CrossReferences);
        }
        Ok(Crafting::assemble(categories, items, recipes))
    }
}

/// Stored parts make a catalog exactly where what they describe is well
/// formed, and then they make that catalog: what `into_parts` hands out,
/// `from_parts` takes up again unchanged.
pub proof fn lemma_decode_round_trip(catalog: CraftingView)
    ensures
        decode(catalog) is Ok <==> catalog.wf(),
        catalog.wf() ==> decode(catalog) == Ok::<CraftingView, DecodeError>(catalog),
{
}

} // verus!
