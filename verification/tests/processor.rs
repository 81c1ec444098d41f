use crafting::processor::{process, Category, Ingredient, Item, ItemMap, Recipe};
use crafting::{Crafting, Error};

fn s(text: &str) -> String {
    text.to_string()
}

fn names(list: &[&str]) -> Vec<String> {
    list.iter().map(|name| name.to_string()).collect()
}

fn category(name: &str, items: &[&str]) -> Category {
    Category {
        name: s(name),
        items: items
            .iter()
            .map(|item| Item { name: s(item), image_url: format!("{}.png", item) })
            .collect(),
    }
}

fn potion_catalog() -> Vec<Category> {
    vec![
        category("Potions", &["T1", "T2", "T3"]),
        category(
            "Augmentors",
            &["Augmentor", "High Quality Augmentor", "Ultimate Augmentor Herb"],
        ),
    ]
}

fn potion_map() -> ItemMap {
    let mut map = ItemMap::new();
    for (position, name) in [
        "T1",
        "T2",
        "T3",
        "Augmentor",
        "High Quality Augmentor",
        "Ultimate Augmentor Herb",
    ]
    .iter()
    .enumerate()
    {
        map.insert(s(name), position);
    }
    map
}

/// Each recipe as (slots, outputs), each slot as (is a list of alternatives, items).
fn shape(recipes: &[crafting::Recipe]) -> Vec<(Vec<(bool, Vec<usize>)>, Vec<usize>)> {
    recipes
        .iter()
        .map(|recipe| {
            let input = recipe.input();
            let slots = (0..input.len())
                .map(|slot| {
                    let ingredient = input.get(slot);
                    (
                        matches!(ingredient, crafting::Ingredient::Alternatives(_)),
                        ingredient.items(),
                    )
                })
                .collect();
            (slots, recipe.output().to_vec())
        })
        .collect()
}

fn catalog_shape(crafting: &Crafting) -> Vec<(Vec<(bool, Vec<usize>)>, Vec<usize>)> {
    (0..crafting.recipe_count())
        .map(|r| shape(std::slice::from_ref(crafting.recipe(r))).remove(0))
        .collect()
}

fn unknown(result: Result<impl Sized, Error>) -> String {
    match result {
        Err(Error::UnknownItemName(name)) => name,
        Err(Error::UnanchoredItem) => panic!("unanchored item"),
        Ok(_) => panic!("the build went through"),
    }
}

#[test]
fn item_map_resolves_registered_names() {
    let mut map = ItemMap::new();
    map.insert(s("Sage"), 4);
    map.insert(s("Mint"), 7);
    assert_eq!(map.resolve(s("Sage")).unwrap(), 4);
    assert_eq!(map.resolve(s("Mint")).unwrap(), 7);
    assert_eq!(unknown(map.resolve(s("Thyme"))), "Thyme");
    map.insert(s("Sage"), 9);
    assert_eq!(map.resolve(s("Sage")).unwrap(), 9);
}

#[test]
fn item_converts_without_cross_references() {
    let item = Item { name: s("Sage"), image_url: s("sage.png") }.convert();
    assert_eq!(item.name(), "Sage");
    assert_eq!(item.image_url(), "sage.png");
    assert!(item.recipes().to_vec().is_empty());
    assert!(item.usage().to_vec().is_empty());
}

#[test]
fn ingredient_converts_by_name() {
    let map = potion_map();
    let unique = Ingredient::Unique(s("T2")).convert(&map).unwrap();
    assert!(matches!(unique, crafting::Ingredient::Unique(1)));
    let alternatives = Ingredient::Alternatives(names(&["T3", "T1", "T3"])).convert(&map).unwrap();
    assert!(matches!(alternatives, crafting::Ingredient::Alternatives(_)));
    assert_eq!(alternatives.items(), vec![2, 0, 2]);
    let empty = Ingredient::Alternatives(vec![]).convert(&map).unwrap();
    assert!(matches!(empty, crafting::Ingredient::Alternatives(_)));
    assert!(empty.items().is_empty());
}

#[test]
fn ingredient_reports_first_unknown_name() {
    let map = potion_map();
    assert_eq!(unknown(Ingredient::Unique(s("T9")).convert(&map)), "T9");
    let alternatives = Ingredient::Alternatives(names(&["T1", "X", "T2", "Y"]));
    assert_eq!(unknown(alternatives.convert(&map)), "X");
}

#[test]
fn regular_recipe_gives_one_recipe() {
    let map = potion_map();
    let recipe = Recipe::Regular {
        input: vec![
            Ingredient::Unique(s("T1")),
            Ingredient::Alternatives(names(&["Augmentor", "T2"])),
        ],
        output: names(&["T3", "T3"]),
    };
    let compiled = recipe.convert(&map).unwrap();
    assert_eq!(
        shape(&compiled),
        vec![(vec![(false, vec![0]), (true, vec![3, 1])], vec![2, 2])]
    );
}

#[test]
fn regular_recipe_reports_unknown_input_before_output() {
    let map = potion_map();
    let recipe = Recipe::Regular {
        input: vec![
            Ingredient::Unique(s("T1")),
            Ingredient::Alternatives(names(&["T2", "Missing"])),
            Ingredient::Unique(s("Later")),
        ],
        output: names(&["Absent"]),
    };
    assert_eq!(unknown(recipe.convert(&map)), "Missing");
}

#[test]
fn regular_recipe_reports_unknown_output() {
    let map = potion_map();
    let built = Recipe::build_recipe(
        vec![Ingredient::Unique(s("T1"))],
        names(&["T2", "Absent", "Gone"]),
        &map,
    );
    assert_eq!(unknown(built), "Absent");
}

#[test]
fn potion_upgrade_with_default_budgets() {
    let map = potion_map();
    let recipe = Recipe::PotionUpgrade {
        potion_levels: names(&["T1", "T2", "T3"]),
        hq_augmentors: None,
        ult_augmentors: None,
    };
    let compiled = recipe.convert(&map).unwrap();
    assert_eq!(
        shape(&compiled),
        vec![
            (vec![(false, vec![1]), (false, vec![1])], vec![2]),
            (vec![(false, vec![1]), (true, vec![5])], vec![2]),
            (vec![(false, vec![0]), (false, vec![0])], vec![1]),
            (vec![(false, vec![0]), (true, vec![4, 5])], vec![1]),
        ]
    );
}

#[test]
fn potion_upgrade_of_short_chains_is_empty() {
    let map = ItemMap::new();
    let none = Recipe::PotionUpgrade {
        potion_levels: vec![],
        hq_augmentors: None,
        ult_augmentors: None,
    };
    assert!(none.convert(&map).unwrap().is_empty());
    let one = Recipe::PotionUpgrade {
        potion_levels: names(&["Never registered"]),
        hq_augmentors: Some(3),
        ult_augmentors: Some(0),
    };
    assert!(one.convert(&map).unwrap().is_empty());
}

#[test]
fn potion_upgrade_spends_budgets_on_strongest_steps() {
    let mut map = potion_map();
    map.insert(s("T4"), 6);
    map.insert(s("T5"), 7);
    let chain = names(&["T1", "T2", "T3", "T4", "T5"]);
    let compiled = Recipe::upgrade_chain(chain, 1, 2, &map).unwrap();
    let augmentors: Vec<Vec<usize>> =
        shape(&compiled).iter().skip(1).step_by(2).map(|recipe| recipe.0[1].1.clone()).collect();
    assert_eq!(augmentors, vec![vec![5], vec![5], vec![4, 5], vec![3, 4, 5]]);
    let steps: Vec<(usize, usize)> =
        shape(&compiled).iter().step_by(2).map(|recipe| (recipe.0[0].1[0], recipe.1[0])).collect();
    assert_eq!(steps, vec![(6, 7), (2, 6), (1, 2), (0, 1)]);
}

#[test]
fn potion_upgrade_without_budgets_offers_every_augmentor() {
    let map = potion_map();
    let compiled = Recipe::upgrade_chain(names(&["T1", "T2"]), 0, 0, &map).unwrap();
    assert_eq!(
        shape(&compiled),
        vec![
            (vec![(false, vec![0]), (false, vec![0])], vec![1]),
            (vec![(false, vec![0]), (true, vec![3, 4, 5])], vec![1]),
        ]
    );
}

#[test]
fn add_potion_recipes_appends_two() {
    let map = potion_map();
    let mut recipes = Vec::new();
    Recipe::add_potion_recipes(&mut recipes, s("T1"), s("T3"), 2, &map).unwrap();
    assert_eq!(
        shape(&recipes),
        vec![
            (vec![(false, vec![0]), (false, vec![0])], vec![2]),
            (vec![(false, vec![0]), (true, vec![4, 5])], vec![2]),
        ]
    );
    Recipe::add_potion_recipes(&mut recipes, s("T2"), s("T3"), 0, &map).unwrap();
    assert_eq!(recipes.len(), 4);
    assert_eq!(shape(&recipes)[3], (vec![(false, vec![1]), (true, vec![])], vec![2]));
}

#[test]
fn add_potion_recipes_leaves_recipes_on_failure() {
    let mut map = ItemMap::new();
    map.insert(s("T1"), 0);
    map.insert(s("T2"), 1);
    let mut recipes = Vec::new();
    let result = Recipe::add_potion_recipes(&mut recipes, s("T1"), s("T2"), 1, &map);
    assert_eq!(unknown(result), "Ultimate Augmentor Herb");
    assert!(recipes.is_empty());
    let result = Recipe::add_potion_recipes(&mut recipes, s("T1"), s("T7"), 1, &map);
    assert_eq!(unknown(result), "T7");
    let result = Recipe::add_potion_recipes(&mut recipes, s("T0"), s("T7"), 1, &map);
    assert_eq!(unknown(result), "T0");
    assert!(recipes.is_empty());
}

#[test]
fn process_builds_the_catalog() {
    let recipes = vec![
        Recipe::Regular {
            input: vec![Ingredient::Unique(s("T1")), Ingredient::Unique(s("T1"))],
            output: names(&["Augmentor"]),
        },
        Recipe::PotionUpgrade {
            potion_levels: names(&["T1", "T2", "T3"]),
            hq_augmentors: None,
            ult_augmentors: None,
        },
    ];
    let crafting = process(potion_catalog(), recipes).unwrap();
    assert_eq!(crafting.category_count(), 2);
    assert_eq!(crafting.item_count(), 6);
    assert_eq!(crafting.recipe_count(), 5);
    assert_eq!((crafting.category(0).start(), crafting.category(0).end()), (0, 3));
    assert_eq!((crafting.category(1).start(), crafting.category(1).end()), (3, 6));
    assert_eq!(crafting.item(5).name(), "Ultimate Augmentor Herb");
    assert_eq!(crafting.item(5).image_url(), "Ultimate Augmentor Herb.png");
    assert_eq!(
        catalog_shape(&crafting),
        vec![
            (vec![(false, vec![0]), (false, vec![0])], vec![3]),
            (vec![(false, vec![1]), (false, vec![1])], vec![2]),
            (vec![(false, vec![1]), (true, vec![5])], vec![2]),
            (vec![(false, vec![0]), (false, vec![0])], vec![1]),
            (vec![(false, vec![0]), (true, vec![4, 5])], vec![1]),
        ]
    );
    assert_eq!(crafting.item(0).usage().to_vec(), vec![0, 3, 4]);
    assert_eq!(crafting.item(1).usage().to_vec(), vec![1, 2]);
    assert_eq!(crafting.item(1).recipes().to_vec(), vec![3, 4]);
    assert_eq!(crafting.item(2).recipes().to_vec(), vec![1, 2]);
    assert_eq!(crafting.item(3).recipes().to_vec(), vec![0]);
    assert_eq!(crafting.item(4).usage().to_vec(), vec![4]);
    assert_eq!(crafting.item(5).usage().to_vec(), vec![2, 4]);
}

#[test]
fn process_stops_at_an_unregistered_name() {
    let recipes = vec![
        Recipe::Regular { input: vec![Ingredient::Unique(s("T1"))], output: names(&["T2"]) },
        Recipe::Regular {
            input: vec![Ingredient::Unique(s("T1"))],
            output: names(&["T2", "Elixir"]),
        },
        Recipe::Regular { input: vec![Ingredient::Unique(s("Dust"))], output: names(&["T2"]) },
    ];
    assert_eq!(unknown(process(potion_catalog(), recipes)), "Elixir");
    let recipes = vec![Recipe::Regular {
        input: vec![Ingredient::Alternatives(names(&["T1", "Dust"]))],
        output: names(&["Elixir"]),
    }];
    assert_eq!(unknown(process(potion_catalog(), recipes)), "Dust");
}

#[test]
fn process_resolves_a_repeated_name_to_its_last_item() {
    let catalog = vec![category("A", &["Sage", "Mint"]), category("B", &["Sage"])];
    let recipes = vec![Recipe::Regular {
        input: vec![Ingredient::Unique(s("Sage"))],
        output: names(&["Mint"]),
    }];
    let crafting = process(catalog, recipes).unwrap();
    assert_eq!(catalog_shape(&crafting), vec![(vec![(false, vec![2])], vec![1])]);
    assert!(crafting.item(0).usage().to_vec().is_empty());
    assert_eq!(crafting.item(2).usage().to_vec(), vec![0]);
}

#[test]
fn process_of_nothing_is_empty() {
    let crafting = process(vec![], vec![]).unwrap();
    assert_eq!(crafting.category_count(), 0);
    assert_eq!(crafting.item_count(), 0);
    assert_eq!(crafting.recipe_count(), 0);
}

#[test]
fn resolve_all_keeps_the_order_of_the_names() {
    let map = potion_map();
    let positions = crafting::processor::resolve_all(names(&["T3", "Augmentor", "T1", "T3"]), &map);
    assert_eq!(positions.unwrap(), vec![2, 3, 0, 2]);
    assert!(crafting::processor::resolve_all(vec![], &ItemMap::new()).unwrap().is_empty());
    assert_eq!(unknown(crafting::processor::resolve_all(names(&["T1", "No", "Nope"]), &map)), "No");
}

#[test]
fn potion_upgrade_reports_a_missing_augmentor() {
    let mut map = ItemMap::new();
    map.insert(s("T1"), 0);
    map.insert(s("T2"), 1);
    map.insert(s("Ultimate Augmentor Herb"), 2);
    let chain = Recipe::PotionUpgrade {
        potion_levels: names(&["T1", "T2"]),
        hq_augmentors: None,
        ult_augmentors: Some(0),
    };
    assert_eq!(unknown(chain.convert(&map)), "High Quality Augmentor");
    let chain = Recipe::PotionUpgrade {
        potion_levels: names(&["T1", "T2"]),
        hq_augmentors: None,
        ult_augmentors: None,
    };
    assert_eq!(chain.convert(&map).unwrap().len(), 2);
}

#[test]
fn augmentor_names_are_fixed() {
    assert_eq!(crafting::processor::AUGMENTOR, "Augmentor");
    assert_eq!(crafting::processor::HIGH_QUALITY_AUGMENTOR, "High Quality Augmentor");
    assert_eq!(crafting::processor::ULTIMATE_AUGMENTOR, "Ultimate Augmentor Herb");
}
