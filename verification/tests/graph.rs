use crafting::{Crafting, Error, IndexList, Ingredient, Item, Recipe};

fn item(name: &str) -> Item {
    Item::new(name.to_string(), format!("/img/{}.png", name))
}

fn sample() -> Crafting {
    let mut crafting = Crafting::new();
    crafting.add_category("Herbs".to_string());
    assert_eq!(crafting.add_item(item("Sage")).unwrap(), 0);
    assert_eq!(crafting.add_item(item("Mint")).unwrap(), 1);
    crafting.add_category("Empty".to_string());
    crafting.add_category("Potions".to_string());
    assert_eq!(crafting.add_item(item("Tonic")).unwrap(), 2);
    crafting
}

fn ranges(crafting: &Crafting) -> Vec<(String, usize, usize)> {
    (0..crafting.category_count())
        .map(|c| {
            let category = crafting.category(c);
            (category.name().to_string(), category.start(), category.end())
        })
        .collect()
}

#[test]
fn new_catalog_is_empty() {
    let crafting = Crafting::new();
    assert_eq!(crafting.category_count(), 0);
    assert_eq!(crafting.item_count(), 0);
    assert_eq!(crafting.recipe_count(), 0);
    assert!(crafting.categories().is_empty());
}

#[test]
fn add_item_without_category_is_unanchored() {
    let mut crafting = Crafting::new();
    let result = crafting.add_item(item("Sage"));
    assert!(matches!(result, Err(Error::UnanchoredItem)));
    assert_eq!(crafting.item_count(), 0);
    assert_eq!(crafting.category_count(), 0);
}

#[test]
fn categories_tile_the_items() {
    let crafting = sample();
    assert_eq!(
        ranges(&crafting),
        vec![
            ("Herbs".to_string(), 0, 2),
            ("Empty".to_string(), 2, 2),
            ("Potions".to_string(), 2, 3),
        ]
    );
    assert_eq!(crafting.item_count(), 3);
    let names: Vec<Vec<String>> = (0..crafting.category_count())
        .map(|c| {
            crafting
                .items(crafting.category(c))
                .iter()
                .map(|item| item.name().to_string())
                .collect()
        })
        .collect();
    assert_eq!(
        names,
        vec![
            vec!["Sage".to_string(), "Mint".to_string()],
            vec![],
            vec!["Tonic".to_string()],
        ]
    );
}

#[test]
fn add_category_anchors_at_the_item_count() {
    let mut crafting = sample();
    crafting.add_category("Late".to_string());
    let late = crafting.category(3);
    assert_eq!((late.name(), late.start(), late.end()), ("Late", 3, 3));
}

#[test]
fn add_item_keeps_name_and_image() {
    let crafting = sample();
    assert_eq!(crafting.item(1).name(), "Mint");
    assert_eq!(crafting.item(1).image_url(), "/img/Mint.png");
    assert!(crafting.item(1).recipes().to_vec().is_empty());
    assert!(crafting.item(1).usage().to_vec().is_empty());
}

#[test]
fn add_item_drops_foreign_cross_references() {
    let mut crafting = Crafting::new();
    crafting.add_category("Herbs".to_string());
    let stray = Item::from_parts(
        "Sage".to_string(),
        "sage.png".to_string(),
        IndexList::from_vec(&vec![4, 9]),
        IndexList::from_vec(&vec![1]),
    );
    assert_eq!(crafting.add_item(stray).unwrap(), 0);
    assert_eq!(crafting.item(0).name(), "Sage");
    assert!(crafting.item(0).recipes().to_vec().is_empty());
    assert!(crafting.item(0).usage().to_vec().is_empty());
}

#[test]
fn repeated_item_is_recorded_once() {
    let mut crafting = sample();
    let mut recipe = Recipe::new();
    recipe.add_input(Ingredient::Unique(0));
    recipe.add_input(Ingredient::Alternatives(IndexList::from_vec(&vec![1, 0])));
    recipe.add_output(0);
    recipe.add_output(0);
    crafting.add_recipe(recipe);
    assert_eq!(crafting.item(0).usage().to_vec(), vec![0]);
    assert_eq!(crafting.item(0).recipes().to_vec(), vec![0]);
    assert_eq!(crafting.item(1).usage().to_vec(), vec![0]);
    assert!(crafting.item(1).recipes().to_vec().is_empty());
    assert!(crafting.item(2).usage().to_vec().is_empty());
    assert!(crafting.item(2).recipes().to_vec().is_empty());
}

#[test]
fn interleaved_repeats_are_recorded_once() {
    let mut crafting = sample();
    let mut recipe = Recipe::new();
    recipe.add_input(Ingredient::Unique(0));
    recipe.add_input(Ingredient::Unique(1));
    recipe.add_input(Ingredient::Unique(0));
    recipe.add_output(2);
    recipe.add_output(1);
    recipe.add_output(2);
    crafting.add_recipe(recipe);
    assert_eq!(crafting.item(0).usage().to_vec(), vec![0]);
    assert_eq!(crafting.item(1).usage().to_vec(), vec![0]);
    assert_eq!(crafting.item(2).recipes().to_vec(), vec![0]);
    assert_eq!(crafting.item(1).recipes().to_vec(), vec![0]);
}

#[test]
fn cross_references_grow_sorted_over_recipes() {
    let mut crafting = sample();
    for _ in 0..3 {
        let mut recipe = Recipe::new();
        recipe.add_input(Ingredient::Unique(0));
        recipe.add_output(2);
        crafting.add_recipe(recipe);
    }
    let mut other = Recipe::new();
    other.add_input(Ingredient::Unique(1));
    other.add_output(0);
    crafting.add_recipe(other);
    assert_eq!(crafting.recipe_count(), 4);
    assert_eq!(crafting.item(0).usage().to_vec(), vec![0, 1, 2]);
    assert_eq!(crafting.item(2).recipes().to_vec(), vec![0, 1, 2]);
    assert_eq!(crafting.item(1).usage().to_vec(), vec![3]);
    assert_eq!(crafting.item(0).recipes().to_vec(), vec![3]);
}

#[test]
fn recipe_keeps_slots_and_outputs_in_order() {
    let mut recipe = Recipe::new();
    recipe.add_input(Ingredient::Alternatives(IndexList::from_vec(&vec![2, 1])));
    recipe.add_input(Ingredient::Unique(0));
    recipe.add_output(1);
    recipe.add_output(2);
    assert_eq!(recipe.input().len(), 2);
    assert_eq!(recipe.input().get(0).items(), vec![2, 1]);
    assert_eq!(recipe.input().get(1).items(), vec![0]);
    assert!(matches!(recipe.input().get(1), Ingredient::Unique(0)));
    assert_eq!(recipe.output().to_vec(), vec![1, 2]);
    assert_eq!(recipe.consumed(), vec![2, 1, 0]);
}

#[test]
fn views_walk_the_catalog() {
    let mut crafting = sample();
    let mut recipe = Recipe::new();
    recipe.add_input(Ingredient::Unique(0));
    recipe.add_input(Ingredient::Alternatives(IndexList::from_vec(&vec![0, 1])));
    recipe.add_output(2);
    crafting.add_recipe(recipe);

    let categories = crafting.categories();
    let names: Vec<&str> = categories.iter().map(|c| c.name()).collect();
    assert_eq!(names, vec!["Herbs", "Empty", "Potions"]);
    assert!(categories[1].items().is_empty());

    let herbs = categories[0].items();
    assert_eq!(herbs.len(), 2);
    assert_eq!(herbs[0].name(), "Sage");
    assert_eq!(herbs[1].image_url(), "/img/Mint.png");
    assert!(herbs[0].recipes().is_empty());

    let usage = herbs[0].usage();
    assert_eq!(usage.len(), 1);
    let slots: Vec<Vec<&str>> = usage[0]
        .input()
        .iter()
        .map(|slot| slot.iter().map(|item| item.name()).collect())
        .collect();
    assert_eq!(slots, vec![vec!["Sage"], vec!["Sage", "Mint"]]);
    let output: Vec<&str> = usage[0].output().iter().map(|item| item.name()).collect();
    assert_eq!(output, vec!["Tonic"]);

    let tonic = &categories[2].items()[0];
    assert_eq!(tonic.recipes().len(), 1);
    assert!(tonic.usage().is_empty());
}

#[test]
fn error_messages_name_the_failure() {
    assert_eq!(
        Error::UnknownItemName("Sage".to_string()).message(),
        "unknown item name: Sage"
    );
    assert_eq!(
        Error::UnanchoredItem.message(),
        "item registered before any category"
    );
}

#[test]
fn recipe_items_follow_the_slots() {
    let crafting = sample();
    let mut recipe = Recipe::new();
    recipe.add_input(Ingredient::Alternatives(IndexList::from_vec(&vec![2, 0])));
    recipe.add_input(Ingredient::Unique(0));
    recipe.add_input(Ingredient::Alternatives(IndexList::new()));
    recipe.add_output(1);
    assert!(recipe.fits(crafting.item_count()));
    let names: Vec<&str> = crafting.recipe_items(&recipe).iter().map(|item| item.name()).collect();
    assert_eq!(names, vec!["Tonic", "Sage", "Sage"]);
    assert!(crafting.recipe_items(&Recipe::new()).is_empty());
}

#[test]
fn defaults_are_empty() {
    let crafting = Crafting::default();
    assert_eq!(
        (crafting.category_count(), crafting.item_count(), crafting.recipe_count()),
        (0, 0, 0)
    );
    let recipe = Recipe::default();
    assert_eq!(recipe.input().len(), 0);
    assert!(recipe.output().to_vec().is_empty());
    assert!(crafting::Model::default().crafting().is_none());
}
