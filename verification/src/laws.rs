//! What holds of every catalog and of every build, proved from the
//! definitions that the contracts of the library use.

use crate::error::ErrorView;
use crate::graph::{
    lemma_categories_ordered, lemma_category_in_bounds, CraftingView, ItemView, RecipeView,
};
use crate::processor::{
    build, collect, compile_all, input_results, lemma_collect_err, lemma_collect_ok, name_results,
    potion_recipes, recipe_results, resolve_name, resolve_names, IngredientView, RecipeView as Declaration,
    RegularView, Registry,
};
use vstd::prelude::*;

verus! {

/// Whether the category at `category` holds the item at `item`.
pub open spec fn holds(catalog: CraftingView, category: int, item: int) -> bool {
    &&& 0 <= category < catalog.categories.len()
    &&& catalog.categories[category].start <= item < catalog.categories[category].end
}

/// The categories of a well-formed catalog partition its items: every item
/// lies in one category and in no other.
pub proof fn lemma_categories_partition(catalog: CraftingView, item: int) -> (category: int)
    requires
        catalog.wf(),
        0 <= item < catalog.items.len(),
    ensures
        holds(catalog, category, item),
        forall|other: int| holds(catalog, other, item) ==> other == category,
{
    let category = lemma_category_below(catalog, item, catalog.categories.len() - 1);
    assert forall|other: int| holds(catalog, other, item) implies other == category by {
        if other < category {
            lemma_categories_ordered(catalog, other, category);
        } else if category < other {
            lemma_categories_ordered(catalog, category, other);
        }
    }
    category
}

/// An item that lies before the end of category `last` lies in a category
/// up to `last`.
proof fn lemma_category_below(catalog: CraftingView, item: int, last: int) -> (category: int)
    requires
        catalog.tiled(),
        0 <= last < catalog.categories.len(),
        0 <= item < catalog.categories[last].end,
    ensures
        0 <= category <= last,
        holds(catalog, category, item),
    decreases last,
{
    if catalog.categories[last].start <= item {
        last
    } else {
        assert(catalog.categories[last - 1].end == catalog.categories[last].start);
        lemma_category_below(catalog, item, last - 1)
    }
}

/// Every category of a well-formed catalog is a range of its items, and no
/// category holds a position that is not an item.
pub proof fn lemma_categories_within_items(catalog: CraftingView, category: int, item: int)
    requires
        catalog.wf(),
        holds(catalog, category, item),
    ensures
        0 <= item < catalog.items.len(),
{
    lemma_category_in_bounds(catalog, category);
}

/// Every index that a well-formed catalog refers to exists: the items that
/// a recipe names, as a slot's choice or as an output, and the recipes that
/// an item lists.
pub proof fn lemma_references_in_bounds(catalog: CraftingView)
    requires
        catalog.wf(),
    ensures
        forall|r: int, slot: int, k: int|
            0 <= r < catalog.recipes.len() && 0 <= slot < catalog.recipes[r].input.len() && 0 <= k
                < catalog.recipes[r].input[slot].items().len()
                ==> #[trigger] catalog.recipes[r].input[slot].items()[k] < catalog.items.len(),
        forall|r: int, k: int|
            0 <= r < catalog.recipes.len() && 0 <= k < catalog.recipes[r].output.len()
                ==> #[trigger] catalog.recipes[r].output[k] < catalog.items.len(),
        forall|item: int, k: int|
            0 <= item < catalog.items.len() && 0 <= k < catalog.items[item].recipes.len()
                ==> #[trigger] catalog.items[item].recipes[k] < catalog.recipes.len(),
        forall|item: int, k: int|
            0 <= item < catalog.items.len() && 0 <= k < catalog.items[item].usage.len()
                ==> #[trigger] catalog.items[item].usage[k] < catalog.recipes.len(),
{
    let count = catalog.items.len() as int;
    assert forall|r: int, slot: int, k: int|
        0 <= r < catalog.recipes.len() && 0 <= slot < catalog.recipes[r].input.len() && 0 <= k
            < catalog.recipes[r].input[slot].items().len()
            implies #[trigger] catalog.recipes[r].input[slot].items()[k] < catalog.items.len() by {
        assert(catalog.recipes[r].in_bounds(count));
        assert(catalog.recipes[r].input[slot].in_bounds(count));
    }
    assert forall|r: int, k: int|
        0 <= r < catalog.recipes.len() && 0 <= k < catalog.recipes[r].output.len()
            implies #[trigger] catalog.recipes[r].output[k] < catalog.items.len() by {
        assert(catalog.recipes[r].in_bounds(count));
    }
    assert forall|item: int, k: int|
        0 <= item < catalog.items.len() && 0 <= k < catalog.items[item].recipes.len()
            implies #[trigger] catalog.items[item].recipes[k] < catalog.recipes.len() by {
        assert(catalog.item_cross_referenced(item));
        assert(catalog.items[item].recipes.contains(catalog.items[item].recipes[k]));
    }
    assert forall|item: int, k: int|
        0 <= item < catalog.items.len() && 0 <= k < catalog.items[item].usage.len()
            implies #[trigger] catalog.items[item].usage[k] < catalog.recipes.len() by {
        assert(catalog.item_cross_referenced(item));
        assert(catalog.items[item].usage.contains(catalog.items[item].usage[k]));
    }
}

/// How often `value` stands in `list`.
pub open spec fn occurrences(list: Seq<usize>, value: usize) -> nat
    decreases list.len(),
{
    if list.len() == 0 {
        0
    } else {
        occurrences(list.drop_last(), value) + if list.last() == value {
            1nat
        } else {
            0nat
        }
    }
}

/// A value stands at most once in an increasing list, and once where the
/// list contains it.
pub proof fn lemma_occurrences_increasing(list: Seq<usize>, value: usize)
    requires
        crate::graph::increasing(list),
    ensures
        occurrences(list, value) == if list.contains(value) {
            1nat
        } else {
            0nat
        },
    decreases list.len(),
{
    if list.len() > 0 {
        let front = list.drop_last();
        lemma_occurrences_increasing(front, value);
        if front.contains(value) {
            let k = choose|k: int| 0 <= k < front.len() && front[k] == value;
            assert(list[k] == value);
            assert(list[k] < list.last());
        } else if list.last() == value {
            assert(list[list.len() - 1] == value);
        } else if list.contains(value) {
            let k = choose|k: int| 0 <= k < list.len() && list[k] == value;
            assert(front[k] == value);
        }
    }
}

/// In a well-formed catalog a recipe is recorded once with each item that
/// it consumes and once with each item that it produces, however often the
/// recipe names the item, and not at all with any other item.
pub proof fn lemma_recorded_once(catalog: CraftingView, recipe: usize, item: usize)
    requires
        catalog.wf(),
        recipe < catalog.recipes.len(),
        item < catalog.items.len(),
    ensures
        occurrences(catalog.items[item as int].usage, recipe) == if catalog.recipes[recipe as int].consumes(
            item,
        ) {
            1nat
        } else {
            0nat
        },
        occurrences(catalog.items[item as int].recipes, recipe)
            == if catalog.recipes[recipe as int].produces(item) {
            1nat
        } else {
            0nat
        },
{
    assert(catalog.item_cross_referenced(item as int));
    lemma_occurrences_increasing(catalog.items[item as int].usage, recipe);
    lemma_occurrences_increasing(catalog.items[item as int].recipes, recipe);
}

/// Whether `after` keeps what `before` holds: every category with its name
/// and its start, every item with its name and image, and every recipe, each
/// at its position.
pub open spec fn extends(before: CraftingView, after: CraftingView) -> bool {
    &&& before.categories.len() <= after.categories.len()
    &&& forall|c: int|
        0 <= c < before.categories.len() ==> (#[trigger] after.categories[c]).name
            == before.categories[c].name && after.categories[c].start
            == before.categories[c].start
    &&& before.items.len() <= after.items.len()
    &&& forall|i: int|
        0 <= i < before.items.len() ==> (#[trigger] after.items[i]).name == before.items[i].name
            && after.items[i].image_url == before.items[i].image_url
    &&& before.recipes.len() <= after.recipes.len()
    &&& forall|r: int|
        0 <= r < before.recipes.len() ==> #[trigger] after.recipes[r] == before.recipes[r]
}

/// Nothing is removed or moved when a category, an item or a recipe is
/// appended.
pub proof fn lemma_append_only(
    catalog: CraftingView,
    name: Seq<char>,
    item: ItemView,
    recipe: RecipeView,
)
    ensures
        extends(catalog, catalog.with_category(name)),
        catalog.categories.len() > 0 ==> extends(catalog, catalog.with_item(item)),
        extends(catalog, catalog.with_recipe(recipe)),
{
}

/// A chain of no tier or of one tier stands for no recipe, whatever the
/// budgets and whatever names are registered.
pub proof fn lemma_short_chain_is_empty(
    potion_levels: Seq<Seq<char>>,
    hq_augmentors: Option<u8>,
    ult_augmentors: Option<u8>,
    map: Map<Seq<char>, usize>,
)
    requires
        potion_levels.len() <= 1,
    ensures
        (Declaration::PotionUpgrade { potion_levels, hq_augmentors, ult_augmentors }).expand().len()
            == 0,
        (Declaration::PotionUpgrade { potion_levels, hq_augmentors, ult_augmentors }).compile(map)
            == Ok::<Seq<RecipeView>, ErrorView>(Seq::empty()),
{
    let declaration = Declaration::PotionUpgrade { potion_levels, hq_augmentors, ult_augmentors };
    assert(recipe_results(declaration.expand(), map) =~= Seq::empty());
}

/// A chain of tiers stands for two recipes for each pair of neighbouring
/// tiers.
pub proof fn lemma_chain_length(potion_levels: Seq<Seq<char>>, hq: int, ult: int)
    requires
        potion_levels.len() >= 1,
    ensures
        potion_recipes(potion_levels, hq, ult).len() == 2 * (potion_levels.len() - 1),
{
}

/// Whether `recipe` mentions `name`, in a slot or as an output.
pub open spec fn mentions(recipe: RegularView, name: Seq<char>) -> bool {
    ||| exists|slot: int|
        0 <= slot < recipe.input.len() && (#[trigger] recipe.input[slot]).names().contains(name)
    ||| recipe.output.contains(name)
}

/// A plain recipe resolves exactly where every name that it mentions is
/// registered. Where one is not, the failure is `UnknownItemName` with a
/// name that the recipe mentions and that is not registered.
pub proof fn lemma_resolve_regular(recipe: RegularView, map: Map<Seq<char>, usize>)
    ensures
        recipe.resolve(map) is Ok <==> forall|name: Seq<char>|
            mentions(recipe, name) ==> map.contains_key(name),
        recipe.resolve(map) matches Err(error) ==> error matches ErrorView::UnknownItemName(name)
            && mentions(recipe, name) && !map.contains_key(name),
{
    let slots = input_results(recipe.input, map);
    let outputs = name_results(recipe.output, map);
    lemma_collect_ok(slots);
    lemma_collect_ok(outputs);
    assert forall|slot: int| 0 <= slot < recipe.input.len() implies (slots[slot] is Ok
        <==> forall|name: Seq<char>| #[trigger]
        recipe.input[slot].names().contains(name) ==> map.contains_key(name)) by {
        lemma_resolve_ingredient(recipe.input[slot], map);
    }
    assert forall|k: int| 0 <= k < recipe.output.len() implies (outputs[k] is Ok
        <==> map.contains_key(recipe.output[k])) by {
        assert(outputs[k] == resolve_name(recipe.output[k], map));
    }
    if recipe.resolve(map) is Ok {
        assert forall|name: Seq<char>| mentions(recipe, name) implies map.contains_key(name) by {
            if recipe.output.contains(name) {
                let k = choose|k: int| 0 <= k < recipe.output.len() && recipe.output[k] == name;
                assert(outputs[k] is Ok);
            } else {
                let slot = choose|slot: int|
                    0 <= slot < recipe.input.len() && (#[trigger] recipe.input[slot]).names().contains(
                        name,
                    );
                assert(slots[slot] is Ok);
            }
        }
    } else if collect(slots) is Err {
        let slot = lemma_collect_err(slots);
        lemma_resolve_ingredient(recipe.input[slot], map);
        let name = slots[slot]->Err_0->UnknownItemName_0;
        assert(recipe.input[slot].names().contains(name));
        assert(mentions(recipe, name));
    } else {
        let k = lemma_collect_err(outputs);
        assert(outputs[k] == resolve_name(recipe.output[k], map));
        assert(recipe.output.contains(recipe.output[k]));
        assert(mentions(recipe, recipe.output[k]));
    }
}

/// A plain recipe that mentions one name that is not registered, and no
/// other such name, fails with `UnknownItemName` on that name, wherever the
/// recipe mentions it.
pub proof fn lemma_only_unknown_name(
    recipe: RegularView,
    map: Map<Seq<char>, usize>,
    name: Seq<char>,
)
    requires
        mentions(recipe, name),
        !map.contains_key(name),
        forall|other: Seq<char>| mentions(recipe, other) && other != name ==> map.contains_key(other),
    ensures
        recipe.resolve(map) == Err::<RecipeView, ErrorView>(ErrorView::UnknownItemName(name)),
{
    lemma_resolve_regular(recipe, map);
}

/// A slot resolves exactly where every name that it mentions is registered.
/// Where one is not, the failure is `UnknownItemName` with a name of the
/// slot that is not registered.
pub proof fn lemma_resolve_ingredient(ingredient: IngredientView, map: Map<Seq<char>, usize>)
    ensures
        ingredient.resolve(map) is Ok <==> forall|name: Seq<char>| #[trigger]
            ingredient.names().contains(name) ==> map.contains_key(name),
        ingredient.resolve(map) matches Err(error) ==> error matches ErrorView::UnknownItemName(
            name,
        ) && ingredient.names().contains(name) && !map.contains_key(name),
{
    match ingredient {
        IngredientView::Unique(name) => {
            assert(ingredient.names()[0] == name);
            assert(ingredient.names().contains(name));
            assert forall|other: Seq<char>| #[trigger]
                ingredient.names().contains(other) implies other == name by {
                let k = choose|k: int|
                    0 <= k < ingredient.names().len() && ingredient.names()[k] == other;
                assert(k == 0);
            }
        },
        IngredientView::Alternatives(names) => {
            lemma_resolve_names(names, map);
            assert(ingredient.names() == names);
            assert(ingredient.resolve(map) is Ok <==> resolve_names(names, map) is Ok);
            if ingredient.resolve(map) is Err {
                let k = choose|k: int|
                    0 <= k < names.len() && resolve_names(names, map)->Err_0
                        == ErrorView::UnknownItemName(#[trigger] names[k]) && !map.contains_key(
                        names[k],
                    ) && forall|j: int| 0 <= j < k ==> map.contains_key(#[trigger] names[j]);
                assert(names.contains(names[k]));
            }
        },
    }
}

/// Names resolve exactly where each of them is registered. Where one is
/// not, the failure is `UnknownItemName` with the first of them that is not
/// registered.
pub proof fn lemma_resolve_names(names: Seq<Seq<char>>, map: Map<Seq<char>, usize>)
    ensures
        resolve_names(names, map) is Ok <==> forall|name: Seq<char>| #[trigger]
            names.contains(name) ==> map.contains_key(name),
        resolve_names(names, map) matches Ok(positions) ==> positions.len() == names.len()
            && forall|k: int| 0 <= k < names.len() ==> #[trigger] positions[k] == map[names[k]],
        resolve_names(names, map) matches Err(error) ==> exists|k: int|
            0 <= k < names.len() && error == ErrorView::UnknownItemName(#[trigger] names[k])
                && !map.contains_key(names[k]) && forall|j: int|
                0 <= j < k ==> map.contains_key(#[trigger] names[j]),
{
    let results = name_results(names, map);
    lemma_collect_ok(results);
    assert forall|k: int| 0 <= k < names.len() implies (#[trigger] results[k]) == resolve_name(
        names[k],
        map,
    ) by {}
    if resolve_names(names, map) is Ok {
        let positions = resolve_names(names, map)->Ok_0;
        assert forall|name: Seq<char>| #[trigger] names.contains(name) implies map.contains_key(
            name,
        ) by {
            let k = choose|k: int| 0 <= k < names.len() && names[k] == name;
            assert(results[k] is Ok);
        }
        assert forall|k: int| 0 <= k < names.len() implies #[trigger] positions[k]
            == map[names[k]] by {
            assert(results[k] == Ok::<usize, ErrorView>(positions[k]));
        }
    } else {
        let k = lemma_collect_err(results);
        assert(results[k] == resolve_name(names[k], map));
        assert(names.contains(names[k]));
        assert forall|j: int| 0 <= j < k implies map.contains_key(#[trigger] names[j]) by {
            assert(results[j] is Ok);
        }
    }
}

/// A declaration compiles exactly where every name is registered that the
/// plain recipes it stands for mention: for a chain of potion tiers, the
/// tiers and the augmentors that its steps offer.
pub proof fn lemma_compile_succeeds(declaration: Declaration, map: Map<Seq<char>, usize>)
    ensures
        declaration.compile(map) is Ok <==> forall|k: int, name: Seq<char>|
            0 <= k < declaration.expand().len() && mentions(#[trigger] declaration.expand()[k], name)
                ==> #[trigger] map.contains_key(name),
        declaration.compile(map) matches Ok(compiled) ==> compiled.len()
            == declaration.expand().len(),
{
    let plain = declaration.expand();
    let results = recipe_results(plain, map);
    lemma_collect_ok(results);
    assert forall|k: int| 0 <= k < plain.len() implies (results[k] is Ok <==> forall|
        name: Seq<char>,
    |
        mentions(plain[k], name) ==> map.contains_key(name)) by {
        assert(results[k] == plain[k].resolve(map));
        lemma_resolve_regular(plain[k], map);
    }
    if declaration.compile(map) is Ok {
        assert forall|k: int, name: Seq<char>|
            0 <= k < plain.len() && mentions(#[trigger] plain[k], name) implies #[trigger]
            map.contains_key(name) by {
            assert(results[k] is Ok);
        }
    } else {
        let k = choose|k: int| 0 <= k < results.len() && !(results[k] is Ok);
        let name = choose|name: Seq<char>| mentions(plain[k], name) && !map.contains_key(name);
        assert(mentions(plain[k], name) && !map.contains_key(name));
    }
}

/// A declaration that fails to compile fails with `UnknownItemName` on a
/// name that is not registered.
pub proof fn lemma_compile_failure(declaration: Declaration, map: Map<Seq<char>, usize>)
    requires
        declaration.compile(map) is Err,
    ensures
        declaration.compile(map)->Err_0 matches ErrorView::UnknownItemName(name)
            && !map.contains_key(name),
{
    let results = recipe_results(declaration.expand(), map);
    let k = lemma_collect_err(results);
    assert(results[k] == declaration.expand()[k].resolve(map));
    lemma_resolve_regular(declaration.expand()[k], map);
}

/// The declarations compile exactly where each of them does, and a failure
/// is the failure of one of them.
pub proof fn lemma_compile_all(recipes: Seq<Declaration>, map: Map<Seq<char>, usize>)
    ensures
        compile_all(recipes, map) is Ok <==> forall|r: int|
            0 <= r < recipes.len() ==> (#[trigger] recipes[r]).compile(map) is Ok,
        compile_all(recipes, map) matches Err(error) ==> exists|r: int|
            0 <= r < recipes.len() && (#[trigger] recipes[r]).compile(map) == Err::<
                Seq<RecipeView>,
                ErrorView,
            >(error),
    decreases recipes.len(),
{
    if recipes.len() > 0 {
        let front = recipes.drop_last();
        lemma_compile_all(front, map);
        if compile_all(front, map) is Ok {
            assert forall|r: int| 0 <= r < front.len() implies (#[trigger] recipes[r]).compile(
                map,
            ) is Ok by {
                assert(front[r].compile(map) is Ok);
            }
            if compile_all(recipes, map) is Err {
                assert(recipes[recipes.len() - 1].compile(map) == Err::<
                    Seq<RecipeView>,
                    ErrorView,
                >(compile_all(recipes, map)->Err_0));
            }
        } else {
            let r = choose|r: int|
                0 <= r < front.len() && (#[trigger] front[r]).compile(map) == Err::<
                    Seq<RecipeView>,
                    ErrorView,
                >(compile_all(front, map)->Err_0);
            assert(recipes[r] == front[r]);
        }
    }
}

/// A build in which a plain recipe mentions a name that no item was
/// registered under ends with `UnknownItemName`, on a name that no item
/// was registered under.
pub proof fn lemma_unregistered_name_ends_build(
    categories: Seq<crate::processor::CategoryView>,
    recipes: Seq<Declaration>,
    r: int,
    name: Seq<char>,
)
    requires
        0 <= r < recipes.len(),
        recipes[r] matches Declaration::Regular(recipe) && mentions(recipe, name),
        !Registry::empty().with_categories(categories).names.contains_key(name),
    ensures
        build(categories, recipes) matches Err(ErrorView::UnknownItemName(unknown))
            && !Registry::empty().with_categories(categories).names.contains_key(unknown),
{
    let map = Registry::empty().with_categories(categories).names;
    let recipe = recipes[r]->Regular_0;
    lemma_resolve_regular(recipe, map);
    let results = recipe_results(recipes[r].expand(), map);
    lemma_collect_ok(results);
    assert(results[0] == recipe.resolve(map));
    assert(recipes[r].compile(map) is Err);
    lemma_compile_all(recipes, map);
    let failed = choose|q: int|
        0 <= q < recipes.len() && (#[trigger] recipes[q]).compile(map) == Err::<
            Seq<RecipeView>,
            ErrorView,
        >(compile_all(recipes, map)->Err_0);
    lemma_compile_failure(recipes[failed], map);
}

/// A build in which every declaration compiles gives a catalog.
pub proof fn lemma_build_succeeds(
    categories: Seq<crate::processor::CategoryView>,
    recipes: Seq<Declaration>,
)
    ensures
        build(categories, recipes) is Ok <==> forall|r: int|
            0 <= r < recipes.len() ==> (#[trigger] recipes[r]).compile(
                Registry::empty().with_categories(categories).names,
            ) is Ok,
{
    lemma_compile_all(recipes, Registry::empty().with_categories(categories).names);
}

/// The number of items that `categories` declare.
pub open spec fn declared_items(categories: Seq<crate::processor::CategoryView>) -> nat
    decreases categories.len(),
{
    if categories.len() == 0 {
        0
    } else {
        declared_items(categories.drop_last()) + categories.last().items.len()
    }
}

/// Registering items in the last category keeps the registry well formed.
proof fn lemma_register_items(registry: Registry, items: Seq<crate::processor::ItemView>)
    requires
        registry.wf(),
        registry.catalog.categories.len() > 0,
        registry.catalog.items.len() + items.len() <= usize::MAX,
    ensures
        registry.with_items(items).wf(),
        registry.with_items(items).catalog.categories.len() > 0,
        registry.with_items(items).catalog.items.len() == registry.catalog.items.len()
            + items.len(),
        registry.with_items(items).catalog.recipes == registry.catalog.recipes,
    decreases items.len(),
{
    if items.len() > 0 {
        lemma_register_items(registry, items.drop_last());
        let before = registry.with_items(items.drop_last());
        crate::graph::lemma_with_item_wf(before.catalog, items.last().convert());
    }
}

/// Registering categories with their items gives a well-formed registry
/// that holds as many items as were declared, and no recipe.
proof fn lemma_register_categories(categories: Seq<crate::processor::CategoryView>)
    requires
        declared_items(categories) <= usize::MAX,
    ensures
        Registry::empty().with_categories(categories).wf(),
        Registry::empty().with_categories(categories).catalog.items.len() == declared_items(
            categories,
        ),
        Registry::empty().with_categories(categories).catalog.recipes.len() == 0,
    decreases categories.len(),
{
    if categories.len() > 0 {
        lemma_register_categories(categories.drop_last());
        let before = Registry::empty().with_categories(categories.drop_last());
        crate::graph::lemma_with_category_wf(before.catalog, categories.last().name);
        let opened = Registry {
            catalog: before.catalog.with_category(categories.last().name),
            names: before.names,
        };
        lemma_register_items(opened, categories.last().items);
    }
}

/// Every recipe that the declarations compile to names items below `count`,
/// where every name of `map` stands for one.
proof fn lemma_compile_all_in_bounds(
    recipes: Seq<Declaration>,
    map: Map<Seq<char>, usize>,
    count: int,
)
    requires
        forall|name: Seq<char>| #[trigger] map.contains_key(name) ==> map[name] < count,
        compile_all(recipes, map) is Ok,
    ensures
        forall|k: int|
            0 <= k < compile_all(recipes, map)->Ok_0.len() ==> (#[trigger] compile_all(
                recipes,
                map,
            )->Ok_0[k]).in_bounds(count),
    decreases recipes.len(),
{
    if recipes.len() > 0 {
        lemma_compile_all_in_bounds(recipes.drop_last(), map, count);
        crate::processor::lemma_compiled_in_bounds(recipes.last(), map, count);
    }
}

/// Appending recipes whose items exist keeps the catalog well formed.
proof fn lemma_with_recipes_wf(catalog: CraftingView, recipes: Seq<RecipeView>)
    requires
        catalog.wf(),
        catalog.recipes.len() + recipes.len() <= usize::MAX,
        forall|k: int|
            0 <= k < recipes.len() ==> (#[trigger] recipes[k]).in_bounds(
                catalog.items.len() as int,
            ),
    ensures
        catalog.with_recipes(recipes).wf(),
        catalog.with_recipes(recipes).items.len() == catalog.items.len(),
        catalog.with_recipes(recipes).recipes.len() == catalog.recipes.len() + recipes.len(),
    decreases recipes.len(),
{
    if recipes.len() > 0 {
        let front = recipes.drop_last();
        assert forall|k: int| 0 <= k < front.len() implies (#[trigger] front[k]).in_bounds(
            catalog.items.len() as int,
        ) by {
            assert(front[k] == recipes[k]);
        }
        lemma_with_recipes_wf(catalog, front);
        assert(recipes.last() == recipes[recipes.len() - 1]);
        crate::graph::lemma_with_recipe_wf(catalog.with_recipes(front), recipes.last());
    }
}

/// Every catalog that a build gives is well formed, as long as its items
/// and its recipes can be counted in a `usize`.
pub proof fn lemma_build_wf(
    categories: Seq<crate::processor::CategoryView>,
    recipes: Seq<Declaration>,
)
    requires
        declared_items(categories) <= usize::MAX,
        compile_all(recipes, Registry::empty().with_categories(categories).names) matches Ok(
            compiled,
        ) ==> compiled.len() <= usize::MAX,
    ensures
        build(categories, recipes) matches Ok(catalog) ==> catalog.wf(),
{
    let registry = Registry::empty().with_categories(categories);
    lemma_register_categories(categories);
    if compile_all(recipes, registry.names) is Ok {
        let compiled = compile_all(recipes, registry.names)->Ok_0;
        lemma_compile_all_in_bounds(recipes, registry.names, registry.catalog.items.len() as int);
        lemma_with_recipes_wf(registry.catalog, compiled);
    }
}

} // verus!
