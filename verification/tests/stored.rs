use crafting::{
    update, Category, Crafting, DecodeError, IndexList, Ingredient, Item, Model, Msg, Recipe,
};

fn list(indices: &[usize]) -> IndexList {
    IndexList::from_vec(&indices.to_vec())
}

fn stored_item(name: &str, recipes: &[usize], usage: &[usize]) -> Item {
    Item::from_parts(name.to_string(), format!("{}.png", name), list(recipes), list(usage))
}

fn category(name: &str, start: usize, end: usize) -> Category {
    Category::from_parts(name.to_string(), start, end)
}

/// Recipe 0: Sage, and Sage or Mint, give Tonic. Recipe 1: Tonic gives Sage twice.
fn recipes() -> Vec<Recipe> {
    let mut first = Recipe::new();
    first.add_input(Ingredient::Unique(0));
    first.add_input(Ingredient::Alternatives(list(&[0, 1])));
    first.add_output(2);
    let mut second = Recipe::new();
    second.add_input(Ingredient::Unique(2));
    second.add_output(0);
    second.add_output(0);
    vec![first, second]
}

fn categories() -> Vec<Category> {
    vec![category("Herbs", 0, 2), category("Potions", 2, 3)]
}

fn items() -> Vec<Item> {
    vec![
        stored_item("Sage", &[1], &[0]),
        stored_item("Mint", &[], &[0]),
        stored_item("Tonic", &[0], &[1]),
    ]
}

fn built() -> Crafting {
    let mut crafting = Crafting::new();
    crafting.add_category("Herbs".to_string());
    crafting.add_item(Item::new("Sage".to_string(), "Sage.png".to_string())).unwrap();
    crafting.add_item(Item::new("Mint".to_string(), "Mint.png".to_string())).unwrap();
    crafting.add_category("Potions".to_string());
    crafting.add_item(Item::new("Tonic".to_string(), "Tonic.png".to_string())).unwrap();
    for recipe in recipes() {
        crafting.add_recipe(recipe);
    }
    crafting
}

type Flat = (
    Vec<(String, usize, usize)>,
    Vec<(String, String, Vec<usize>, Vec<usize>)>,
    Vec<(Vec<(bool, Vec<usize>)>, Vec<usize>)>,
);

fn flat(crafting: &Crafting) -> Flat {
    let categories = (0..crafting.category_count())
        .map(|c| {
            let category = crafting.category(c);
            (category.name().to_string(), category.start(), category.end())
        })
        .collect();
    let items = (0..crafting.item_count())
        .map(|i| {
            let item = crafting.item(i);
            (
                item.name().to_string(),
                item.image_url().to_string(),
                item.recipes().to_vec(),
                item.usage().to_vec(),
            )
        })
        .collect();
    let recipes = (0..crafting.recipe_count())
        .map(|r| {
            let recipe = crafting.recipe(r);
            let slots = (0..recipe.input().len())
                .map(|slot| {
                    let ingredient = recipe.input().get(slot);
                    (matches!(ingredient, Ingredient::Alternatives(_)), ingredient.items())
                })
                .collect();
            (slots, recipe.output().to_vec())
        })
        .collect();
    (categories, items, recipes)
}

#[test]
fn from_parts_takes_a_consistent_catalog() {
    let crafting = Crafting::from_parts(categories(), items(), recipes()).unwrap();
    assert_eq!(flat(&crafting), flat(&built()));
    assert_eq!(crafting.item(0).usage().to_vec(), vec![0]);
    assert_eq!(crafting.item(0).recipes().to_vec(), vec![1]);
}

#[test]
fn parts_round_trip() {
    let before = flat(&built());
    let (categories, items, recipes) = built().into_parts();
    assert_eq!(categories.len(), 2);
    assert_eq!(items.len(), 3);
    assert_eq!(recipes.len(), 2);
    let again = Crafting::from_parts(categories, items, recipes).unwrap();
    assert_eq!(flat(&again), before);
}

#[test]
fn bytes_round_trip_through_bincode() {
    let before = flat(&built());
    let bytes = bincode::serialize(&before).unwrap();
    let after: Flat = bincode::deserialize(&bytes).unwrap();
    assert_eq!(after, before);
    let categories = after.0.into_iter().map(|(name, start, end)| Category::from_parts(name, start, end));
    let items = after.1.into_iter().map(|(name, image_url, recipes, usage)| {
        Item::from_parts(name, image_url, IndexList::from_vec(&recipes), IndexList::from_vec(&usage))
    });
    let recipes = after.2.into_iter().map(|(slots, output)| {
        let mut recipe = Recipe::new();
        for (alternatives, indices) in slots {
            recipe.add_input(if alternatives {
                Ingredient::Alternatives(IndexList::from_vec(&indices))
            } else {
                Ingredient::Unique(indices[0])
            });
        }
        for index in output {
            recipe.add_output(index);
        }
        recipe
    });
    let again =
        Crafting::from_parts(categories.collect(), items.collect(), recipes.collect()).unwrap();
    assert_eq!(flat(&again), before);
    assert!(bincode::deserialize::<Flat>(&bytes[..bytes.len() - 1]).is_err());
}

#[test]
fn from_parts_of_nothing_is_empty() {
    let crafting = Crafting::from_parts(vec![], vec![], vec![]).unwrap();
    assert_eq!(crafting.category_count(), 0);
    assert_eq!(crafting.item_count(), 0);
}

fn failure(categories: Vec<Category>, items: Vec<Item>, recipes: Vec<Recipe>) -> DecodeError {
    Crafting::from_parts(categories, items, recipes).unwrap_err()
}

#[test]
fn from_parts_rejects_categories_that_do_not_tile() {
    let cases = vec![
        vec![category("Herbs", 0, 2)],
        vec![category("Herbs", 0, 1), category("Potions", 2, 3)],
        vec![category("Herbs", 0, 2), category("Potions", 1, 3)],
        vec![category("Herbs", 1, 2), category("Potions", 2, 3)],
        vec![category("Herbs", 0, 2), category("Potions", 2, 4)],
        vec![category("Herbs", 0, 3), category("Potions", 3, 2)],
        vec![],
    ];
    for categories in cases {
        assert!(matches!(failure(categories, items(), recipes()), DecodeError::Categories));
    }
    assert!(matches!(
        failure(vec![], vec![stored_item("Sage", &[], &[])], vec![]),
        DecodeError::Categories
    ));
}

#[test]
fn from_parts_rejects_recipes_out_of_bounds() {
    let mut slot = recipes();
    slot[0].add_input(Ingredient::Alternatives(list(&[1, 3])));
    assert!(matches!(failure(categories(), items(), slot), DecodeError::Recipes));
    let mut output = recipes();
    output[1].add_output(3);
    assert!(matches!(failure(categories(), items(), output), DecodeError::Recipes));
    let mut unique = recipes();
    unique[1].add_input(Ingredient::Unique(7));
    assert!(matches!(failure(categories(), items(), unique), DecodeError::Recipes));
}

#[test]
fn from_parts_rejects_lists_that_disagree() {
    let cases: Vec<(&[usize], &[usize])> = vec![
        (&[1], &[]),
        (&[], &[0]),
        (&[1], &[0, 1]),
        (&[0, 1], &[0]),
        (&[1], &[0, 0]),
        (&[1, 1], &[0]),
        (&[1], &[0, 2]),
        (&[1], &[1]),
    ];
    for (produced, consumed) in cases {
        let mut items = items();
        items[0] = stored_item("Sage", produced, consumed);
        assert!(matches!(
            failure(categories(), items, recipes()),
            DecodeError::CrossReferences
        ));
    }
    let mut items = items();
    items[2] = stored_item("Tonic", &[0], &[1, 0]);
    assert!(matches!(failure(categories(), items, recipes()), DecodeError::CrossReferences));
}

#[test]
fn from_parts_reports_the_first_failure() {
    let mut out_of_bounds = recipes();
    out_of_bounds[0].add_output(9);
    let mut wrong_items = items();
    wrong_items[1] = stored_item("Mint", &[0], &[]);
    assert!(matches!(
        failure(vec![category("Herbs", 0, 2)], wrong_items, out_of_bounds),
        DecodeError::Categories
    ));
    let mut out_of_bounds = recipes();
    out_of_bounds[0].add_output(9);
    let mut wrong_items = items();
    wrong_items[1] = stored_item("Mint", &[0], &[]);
    assert!(matches!(failure(categories(), wrong_items, out_of_bounds), DecodeError::Recipes));
}

#[test]
fn decode_error_messages() {
    assert_eq!(DecodeError::Categories.message(), "the categories do not tile the items");
    assert_eq!(DecodeError::Recipes.message(), "a recipe names an item that does not exist");
    assert_eq!(
        DecodeError::CrossReferences.message(),
        "an item's recipe lists do not match the recipes"
    );
}

#[test]
fn executable_predicates_agree_with_the_lists() {
    assert!(list(&[]).is_increasing());
    assert!(list(&[4]).is_increasing());
    assert!(list(&[1, 2, 9]).is_increasing());
    assert!(!list(&[1, 1]).is_increasing());
    assert!(!list(&[1, 3, 2]).is_increasing());
    assert!(list(&[1, 3, 2]).contains(2));
    assert!(!list(&[1, 3, 2]).contains(0));
    let recipes = recipes();
    assert!(recipes[0].consumes(0) && recipes[0].consumes(1) && !recipes[0].consumes(2));
    assert!(recipes[0].produces(2) && !recipes[0].produces(0));
    assert!(recipes[0].fits(3) && !recipes[0].fits(2));
    assert!(Recipe::new().fits(0));
    assert!(Ingredient::Unique(3).accepts(3) && !Ingredient::Unique(3).accepts(0));
}

#[test]
fn model_holds_the_catalog_once_loaded() {
    let mut model = Model::new();
    assert!(model.crafting().is_none());
    update(Msg::DataLoaded(built()), &mut model);
    let crafting = model.crafting().unwrap();
    assert_eq!(flat(crafting), flat(&built()));
}
