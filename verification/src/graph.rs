//! The catalog graph: categories, items and recipes in flat, append-only
//! arrays, and the cross-references from each item to the recipes that
//! produce and consume it.

use crate::error::Error;
use crate::lists::{IndexList, IngredientList};
use vstd::prelude::*;

verus! {

/// One input slot of a recipe.
#[derive(Debug)]
pub enum Ingredient {
    /// Exactly this item is required.
    Unique(usize),
    /// Any one of these items fills the slot.
    Alternatives(IndexList),
}

/// What an [`Ingredient`] stands for.
pub enum IngredientView {
    Unique(usize),
    Alternatives(Seq<usize>),
}

impl View for Ingredient {
    type V = IngredientView;

    open spec fn view(&self) -> IngredientView {
        match *self {
            Ingredient::Unique(item) => IngredientView::Unique(item),
            Ingredient::Alternatives(items) => IngredientView::Alternatives(items@),
        }
    }
}

impl IngredientView {
    /// The items that can fill the slot, in the order they are listed.
    pub open spec fn items(self) -> Seq<usize> {
        match self {
            IngredientView::Unique(item) => seq![item],
            IngredientView::Alternatives(items) => items,
        }
    }

    /// Whether `item` can fill the slot.
    pub open spec fn accepts(self, item: usize) -> bool {
        self.items().contains(item)
    }

    /// Whether every item named is below `item_count`.
    pub open spec fn in_bounds(self, item_count: int) -> bool {
        forall|k: int| 0 <= k < self.items().len() ==> self.items()[k] < item_count
    }
}

impl Ingredient {
    /// The items that can fill the slot, in the order they are listed.
    pub fn items(&self) -> (items: Vec<usize>)
        ensures
            items@ == self@.items(),
    {
        match self {
            Ingredient::Unique(item) => {
                let mut items: Vec<usize> = Vec::new();
                items.push(*item);
                items
            },
            Ingredient::Alternatives(alternatives) => alternatives.to_vec(),
        }
    }
}

/// Input slots, each filled on its own, and the items that come out together.
#[derive(Debug)]
pub struct Recipe {
    input: IngredientList,
    output: IndexList,
}

/// What a [`Recipe`] stands for.
pub struct RecipeView {
    pub input: Seq<IngredientView>,
    pub output: Seq<usize>,
}

impl View for Recipe {
    type V = RecipeView;

    closed spec fn view(&self) -> RecipeView {
        RecipeView { input: self.input@, output: self.output@ }
    }
}

impl RecipeView {
    /// Whether `item` can fill one of the input slots.
    pub open spec fn consumes(self, item: usize) -> bool {
        exists|slot: int| 0 <= slot < self.input.len() && #[trigger] self.input[slot].accepts(item)
    }

    /// Whether `item` is among the outputs.
    pub open spec fn produces(self, item: usize) -> bool {
        self.output.contains(item)
    }

    /// Whether every item named, in a slot or as an output, is below
    /// `item_count`.
    pub open spec fn in_bounds(self, item_count: int) -> bool {
        &&& forall|slot: int|
            0 <= slot < self.input.len() ==> (#[trigger] self.input[slot]).in_bounds(item_count)
        &&& forall|k: int| 0 <= k < self.output.len() ==> self.output[k] < item_count
    }
}

impl Recipe {
    /// A recipe without inputs or outputs.
    pub fn new() -> (recipe: Self)
        ensures
            recipe@ == (RecipeView { input: Seq::empty(), output: Seq::empty() }),
    {
        Recipe { input: IngredientList::new(), output: IndexList::new() }
    }

    /// Appends an input slot.
    pub fn add_input(&mut self, input: Ingredient)
        ensures
            final(self)@.input == old(self)@.input.push(input@),
            final(self)@.output == old(self)@.output,
    {
        self.input.push(input);
    }

    /// Appends an output item.
    pub fn add_output(&mut self, output: usize)
        ensures
            final(self)@.input == old(self)@.input,
            final(self)@.output == old(self)@.output.push(output),
    {
        self.output.push(output);
    }

    /// The input slots.
    pub fn input(&self) -> (input: &IngredientList)
        ensures
            input@ == self@.input,
    {
        &self.input
    }

    /// The output items.
    pub fn output(&self) -> (output: &IndexList)
        ensures
            output@ == self@.output,
    {
        &self.output
    }
}

/// A craftable or usable thing, with the recipes that produce and consume it.
#[derive(Debug)]
pub struct Item {
    name: String,
    image_url: String,
    recipes: IndexList,
    usage: IndexList,
}

/// What an [`Item`] stands for. `recipes` are the recipes that produce the
/// item, `usage` those that consume it.
pub struct ItemView {
    pub name: Seq<char>,
    pub image_url: Seq<char>,
    pub recipes: Seq<usize>,
    pub usage: Seq<usize>,
}

impl View for Item {
    type V = ItemView;

    closed spec fn view(&self) -> ItemView {
        ItemView {
            name: self.name@,
            image_url: self.image_url@,
            recipes: self.recipes@,
            usage: self.usage@,
        }
    }
}

impl ItemView {
    /// The same item with no recipe recorded for it.
    pub open spec fn unreferenced(self) -> ItemView {
        ItemView { recipes: Seq::empty(), usage: Seq::empty(), ..self }
    }
}

impl Item {
    /// An item that no recipe refers to yet.
    pub fn new(name: String, image_url: String) -> (item: Self)
        ensures
            item@ == (ItemView {
                name: name@,
                image_url: image_url@,
                recipes: Seq::empty(),
                usage: Seq::empty(),
            }),
    {
        Item { name, image_url, recipes: IndexList::new(), usage: IndexList::new() }
    }

    /// An item as it was stored, with the recipes recorded for it.
    pub fn from_parts(name: String, image_url: String, recipes: IndexList, usage: IndexList) -> (item:
        Self)
        ensures
            item@ == (ItemView {
                name: name@,
                image_url: image_url@,
                recipes: recipes@,
                usage: usage@,
            }),
    {
        Item { name, image_url, recipes, usage }
    }

    /// The item's name.
    pub fn name(&self) -> (name: &str)
        ensures
            name@ == self@.name,
    {
        self.name.as_str()
    }

    /// Where the item's image is found.
    pub fn image_url(&self) -> (image_url: &str)
        ensures
            image_url@ == self@.image_url,
    {
        self.image_url.as_str()
    }

    /// The recipes that produce this item, as indices into the catalog's
    /// recipes.
    pub fn recipes(&self) -> (recipes: &IndexList)
        ensures
            recipes@ == self@.recipes,
    {
        &self.recipes
    }

    /// The recipes that consume this item, as indices into the catalog's
    /// recipes.
    pub fn usage(&self) -> (usage: &IndexList)
        ensures
            usage@ == self@.usage,
    {
        &self.usage
    }
}

/// A named run of consecutive items.
#[derive(Debug)]
pub struct Category {
    name: String,
    start: usize,
    end: usize,
}

/// What a [`Category`] stands for: its name and the half-open range
/// `start..end` of item positions.
pub struct CategoryView {
    pub name: Seq<char>,
    pub start: usize,
    pub end: usize,
}

impl View for Category {
    type V = CategoryView;

    closed spec fn view(&self) -> CategoryView {
        CategoryView { name: self.name@, start: self.start, end: self.end }
    }
}

impl Category {
    /// An empty category whose items will begin at `start`.
    pub fn new(name: String, start: usize) -> (category: Self)
        ensures
            category@ == (CategoryView { name: name@, start, end: start }),
    {
        Category { name, start, end: start }
    }

    /// A category as it was stored.
    pub fn from_parts(name: String, start: usize, end: usize) -> (category: Self)
        ensures
            category@ == (CategoryView { name: name@, start, end }),
    {
        Category { name, start, end }
    }

    /// The category's name.
    pub fn name(&self) -> (name: &str)
        ensures
            name@ == self@.name,
    {
        self.name.as_str()
    }

    /// The position of the category's first item.
    pub fn start(&self) -> (start: usize)
        ensures
            start == self@.start,
    {
        self.start
    }

    /// The position after the category's last item.
    pub fn end(&self) -> (end: usize)
        ensures
            end == self@.end,
    {
        self.end
    }
}

/// The catalog: categories, items and recipes, each addressed by its position.
#[derive(Debug)]
pub struct Crafting {
    categories: Vec<Category>,
    items: Vec<Item>,
    recipes: Vec<Recipe>,
}

/// What a [`Crafting`] stands for.
pub struct CraftingView {
    pub categories: Seq<CategoryView>,
    pub items: Seq<ItemView>,
    pub recipes: Seq<RecipeView>,
}

impl View for Crafting {
    type V = CraftingView;

    closed spec fn view(&self) -> CraftingView {
        CraftingView {
            categories: self.categories@.map_values(|category: Category| category@),
            items: self.items@.map_values(|item: Item| item@),
            recipes: self.recipes@.map_values(|recipe: Recipe| recipe@),
        }
    }
}

/// Whether each entry of `list` is larger than the one before it.
pub open spec fn increasing(list: Seq<usize>) -> bool {
    forall|a: int, b: int| 0 <= a < b < list.len() ==> list[a] < list[b]
}

/// `list`, with `position` appended where `hit` holds.
pub open spec fn recorded(list: Seq<usize>, position: usize, hit: bool) -> Seq<usize> {
    if hit {
        list.push(position)
    } else {
        list
    }
}

impl CraftingView {
    /// The catalog that holds nothing.
    pub open spec fn empty() -> CraftingView {
        CraftingView { categories: Seq::empty(), items: Seq::empty(), recipes: Seq::empty() }
    }

    /// The categories' ranges tile the items in declaration order: the first
    /// begins at zero, each begins where the one before it ends, and the last
    /// ends at the number of items.
    pub open spec fn tiled(self) -> bool {
        &&& self.categories.len() == 0 ==> self.items.len() == 0
        &&& self.categories.len() > 0 ==> self.categories[0].start == 0
            && self.categories.last().end == self.items.len()
        &&& forall|c: int|
            0 <= c < self.categories.len() ==> (#[trigger] self.categories[c]).start
                <= self.categories[c].end
        &&& forall|c: int, d: int|
            0 <= c && d == c + 1 && d < self.categories.len() ==> (#[trigger] self.categories[c]).end
                == (#[trigger] self.categories[d]).start
    }

    /// Every item that a recipe names exists.
    pub open spec fn recipes_in_bounds(self) -> bool {
        forall|r: int|
            0 <= r < self.recipes.len() ==> (#[trigger] self.recipes[r]).in_bounds(
                self.items.len() as int,
            )
    }

    /// The lists of item `item` are sorted without repetition, and hold
    /// exactly the recipes that produce, respectively consume, the item.
    pub open spec fn item_cross_referenced(self, item: int) -> bool {
        let entry = self.items[item];
        &&& increasing(entry.recipes)
        &&& increasing(entry.usage)
        &&& forall|r: usize| #[trigger]
            entry.recipes.contains(r) <==> r < self.recipes.len() && self.recipes[r as int].produces(
                item as usize,
            )
        &&& forall|r: usize| #[trigger]
            entry.usage.contains(r) <==> r < self.recipes.len() && self.recipes[r as int].consumes(
                item as usize,
            )
    }

    /// Every item is cross-referenced with the recipes.
    pub open spec fn cross_referenced(self) -> bool {
        forall|item: int| 0 <= item < self.items.len() ==> #[trigger] self.item_cross_referenced(item)
    }

    /// The invariant of the catalog.
    pub open spec fn wf(self) -> bool {
        &&& self.tiled()
        &&& self.recipes_in_bounds()
        &&& self.cross_referenced()
    }

    /// The catalog after a category named `name` was appended: it is empty
    /// and begins after the last item.
    pub open spec fn with_category(self, name: Seq<char>) -> CraftingView {
        CraftingView {
            categories: self.categories.push(
                CategoryView {
                    name,
                    start: self.items.len() as usize,
                    end: self.items.len() as usize,
                },
            ),
            ..self
        }
    }

    /// The catalog after `item` was appended to the last category. The item
    /// enters without cross-references.
    pub open spec fn with_item(self, item: ItemView) -> CraftingView
        recommends
            self.categories.len() > 0,
    {
        let last = self.categories.last();
        CraftingView {
            categories: self.categories.update(
                self.categories.len() - 1,
                CategoryView { end: (last.end + 1) as usize, ..last },
            ),
            items: self.items.push(item.unreferenced()),
            recipes: self.recipes,
        }
    }

    /// The catalog after `recipe` was appended: each item that it produces or
    /// consumes has the recipe's position recorded once.
    pub open spec fn with_recipe(self, recipe: RecipeView) -> CraftingView {
        let position = self.recipes.len() as usize;
        CraftingView {
            categories: self.categories,
            items: Seq::new(
                self.items.len(),
                |item: int|
                    ItemView {
                        recipes: recorded(
                            self.items[item].recipes,
                            position,
                            recipe.produces(item as usize),
                        ),
                        usage: recorded(
                            self.items[item].usage,
                            position,
                            recipe.consumes(item as usize),
                        ),
                        ..self.items[item]
                    },
            ),
            recipes: self.recipes.push(recipe),
        }
    }
}

impl CraftingView {
    /// The catalog after each of `recipes` was appended, in their order.
    pub open spec fn with_recipes(self, recipes: Seq<RecipeView>) -> CraftingView
        decreases recipes.len(),
    {
        if recipes.len() == 0 {
            self
        } else {
            self.with_recipes(recipes.drop_last()).with_recipe(recipes.last())
        }
    }
}

/// An empty catalog is well formed.
pub proof fn lemma_empty_wf()
    ensures
        CraftingView::empty().wf(),
{
}

/// Appending a category keeps the catalog well formed.
pub proof fn lemma_with_category_wf(catalog: CraftingView, name: Seq<char>)
    requires
        catalog.wf(),
        catalog.items.len() <= usize::MAX,
    ensures
        catalog.with_category(name).wf(),
{
    let after = catalog.with_category(name);
    assert forall|item: int| 0 <= item < after.items.len() implies #[trigger]
        after.item_cross_referenced(item) by {
        assert(catalog.item_cross_referenced(item));
    }
}

/// Appending an item to the last category keeps the catalog well formed.
pub proof fn lemma_with_item_wf(catalog: CraftingView, item: ItemView)
    requires
        catalog.wf(),
        catalog.categories.len() > 0,
        catalog.items.len() < usize::MAX,
    ensures
        catalog.with_item(item).wf(),
{
    let after = catalog.with_item(item);
    let count = catalog.items.len() as int;
    assert forall|i: int| 0 <= i < after.items.len() implies #[trigger]
        after.item_cross_referenced(i) by {
        if i < count {
            assert(catalog.item_cross_referenced(i));
        } else {
            let entry = after.items[i];
            assert forall|r: usize| r < after.recipes.len() implies !after.recipes[r as int].produces(
                i as usize,
            ) && !after.recipes[r as int].consumes(i as usize) by {
                let recipe = catalog.recipes[r as int];
                assert(recipe.in_bounds(count));
                if recipe.consumes(i as usize) {
                    let slot = choose|slot: int|
                        0 <= slot < recipe.input.len() && #[trigger] recipe.input[slot].accepts(
                            i as usize,
                        );
                    assert(recipe.input[slot].in_bounds(count));
                }
            }
        }
    }
    assert forall|r: int| 0 <= r < after.recipes.len() implies (#[trigger] after.recipes[r]).in_bounds(
        after.items.len() as int,
    ) by {
        let recipe = catalog.recipes[r];
        assert(recipe.in_bounds(count));
        assert forall|slot: int| 0 <= slot < recipe.input.len() implies (#[trigger]
            recipe.input[slot]).in_bounds(count + 1) by {
            assert(recipe.input[slot].in_bounds(count));
        }
    }
}

/// Appending a recipe whose items exist keeps the catalog well formed.
pub proof fn lemma_with_recipe_wf(catalog: CraftingView, recipe: RecipeView)
    requires
        catalog.wf(),
        catalog.recipes.len() < usize::MAX,
        recipe.in_bounds(catalog.items.len() as int),
    ensures
        catalog.with_recipe(recipe).wf(),
{
    let after = catalog.with_recipe(recipe);
    let position = catalog.recipes.len() as usize;
    assert forall|item: int| 0 <= item < after.items.len() implies #[trigger]
        after.item_cross_referenced(item) by {
        assert(catalog.item_cross_referenced(item));
        let before = catalog.items[item];
        let entry = after.items[item];
        assert(forall|k: int| 0 <= k < before.recipes.len() ==> before.recipes.contains(
            before.recipes[k],
        ));
        assert(forall|k: int| 0 <= k < before.usage.len() ==> before.usage.contains(
            before.usage[k],
        ));
        assert forall|r: usize| #[trigger]
            entry.recipes.contains(r) <==> r < after.recipes.len() && after.recipes[r as int].produces(
                item as usize,
            ) by {
            lemma_recorded_contains(before.recipes, position, recipe.produces(item as usize), r);
            assert(before.recipes.contains(r) ==> r < position);
        }
        assert forall|r: usize| #[trigger]
            entry.usage.contains(r) <==> r < after.recipes.len() && after.recipes[r as int].consumes(
                item as usize,
            ) by {
            lemma_recorded_contains(before.usage, position, recipe.consumes(item as usize), r);
            assert(before.usage.contains(r) ==> r < position);
        }
    }
}

/// The categories of a tiled catalog begin in declaration order, and each
/// lies within the items.
pub proof fn lemma_categories_ordered(catalog: CraftingView, c: int, d: int)
    requires
        catalog.tiled(),
        0 <= c <= d < catalog.categories.len(),
    ensures
        catalog.categories[c].start <= catalog.categories[d].start,
        catalog.categories[c].end <= catalog.categories[d].end,
        c < d ==> catalog.categories[c].end <= catalog.categories[d].start,
    decreases d - c,
{
    if c < d {
        lemma_categories_ordered(catalog, c, d - 1);
        assert(catalog.categories[d - 1].end == catalog.categories[d].start);
        assert(catalog.categories[d].start <= catalog.categories[d].end);
        assert(catalog.categories[d - 1].start <= catalog.categories[d - 1].end);
    }
}

/// Each category of a tiled catalog lies within the items.
pub proof fn lemma_category_in_bounds(catalog: CraftingView, c: int)
    requires
        catalog.tiled(),
        0 <= c < catalog.categories.len(),
    ensures
        catalog.categories[c].start <= catalog.categories[c].end <= catalog.items.len(),
{
    lemma_categories_ordered(catalog, c, catalog.categories.len() - 1);
}

/// What `recorded` holds.
pub proof fn lemma_recorded_contains(list: Seq<usize>, position: usize, hit: bool, r: usize)
    ensures
        recorded(list, position, hit).contains(r) <==> list.contains(r) || (hit && r == position),
{
    let after = recorded(list, position, hit);
    if hit {
        if list.contains(r) {
            let k = choose|k: int| 0 <= k < list.len() && list[k] == r;
            assert(after[k] == r);
        }
        if r == position {
            assert(after[list.len() as int] == r);
        }
    }
}

/// The items that the slots of `input` name, slot by slot.
pub open spec fn choices(input: Seq<IngredientView>) -> Seq<usize> {
    input.map_values(|slot: IngredientView| slot.items()).flatten()
}

/// The choices of one slot more.
pub proof fn lemma_choices_push(input: Seq<IngredientView>, slot: IngredientView)
    ensures
        choices(input.push(slot)) == choices(input) + slot.items(),
{
    let lists = input.map_values(|slot: IngredientView| slot.items());
    assert(input.push(slot).map_values(|slot: IngredientView| slot.items()) =~= lists.push(
        slot.items(),
    ));
    lists.lemma_flatten_push(slot.items());
}

/// An item is among the choices of the slots exactly where one of the
/// slots accepts it.
pub proof fn lemma_choices_contains(input: Seq<IngredientView>, item: usize)
    ensures
        choices(input).contains(item) <==> exists|slot: int|
            0 <= slot < input.len() && #[trigger] input[slot].accepts(item),
    decreases input.len(),
{
    if input.len() == 0 {
        assert(input.map_values(|slot: IngredientView| slot.items()) =~= Seq::empty());
    } else {
        let front = input.drop_last();
        let added = input.last().items();
        lemma_choices_contains(front, item);
        assert(input == front.push(input.last()));
        lemma_choices_push(front, input.last());
        let all = choices(input);
        if choices(front).contains(item) {
            let k = choose|k: int| 0 <= k < choices(front).len() && choices(front)[k] == item;
            assert(all[k] == item);
            let slot = choose|slot: int|
                0 <= slot < front.len() && #[trigger] front[slot].accepts(item);
            assert(input[slot].accepts(item));
        }
        if added.contains(item) {
            let k = choose|k: int| 0 <= k < added.len() && added[k] == item;
            assert(all[choices(front).len() + k] == item);
            assert(input[input.len() - 1].accepts(item));
        }
        if all.contains(item) {
            let k = choose|k: int| 0 <= k < all.len() && all[k] == item;
            if k >= choices(front).len() {
                assert(added[k - choices(front).len()] == item);
            } else {
                assert(choices(front)[k] == item);
            }
        }
        if exists|slot: int| 0 <= slot < input.len() && #[trigger] input[slot].accepts(item) {
            let slot = choose|slot: int|
                0 <= slot < input.len() && #[trigger] input[slot].accepts(item);
            if slot < front.len() {
                assert(front[slot].accepts(item));
            }
        }
    }
}

impl Recipe {
    /// Every item that the input slots name, slot by slot, each as often as
    /// it is named.
    pub fn consumed(&self) -> (items: Vec<usize>)
        ensures
            items@ == choices(self@.input),
    {
        let mut items: Vec<usize> = Vec::new();
        let mut slot: usize = 0;
        assert(self.input@.take(0) =~= Seq::empty());
        assert(self.input@.take(0).map_values(|slot: IngredientView| slot.items()) =~= Seq::empty());
        while slot < self.input.len()
            invariant
                slot <= self.input@.len(),
                items@ == choices(self.input@.take(slot as int)),
            decreases self.input@.len() - slot,
        {
            let mut accepted = self.input.get(slot).items();
            items.append(&mut accepted);
            proof {
                lemma_choices_push(self.input@.take(slot as int), self.input@[slot as int]);
                assert(self.input@.take(slot as int).push(self.input@[slot as int])
                    == self.input@.take(slot + 1));
            }
            slot += 1;
        }
        assert(self.input@.take(slot as int) == self@.input);
        items
    }
}

/// Records `position` at the end of `list`, unless it stands there already.
fn note(list: &mut IndexList, position: usize)
    ensures
        final(list)@ == recorded(
            old(list)@,
            position,
            !(old(list)@.len() > 0 && old(list)@.last() == position),
        ),
{
    let len = list.len();
    if len == 0 || list.get(len - 1) != position {
        list.push(position);
    }
}

/// Records recipe `position` once for each item of `touched`: among the
/// recipes that produce it where `produced` holds, among those that consume
/// it otherwise.
fn record(items: &mut Vec<Item>, touched: &Vec<usize>, position: usize, produced: bool)
    requires
        forall|k: int| 0 <= k < touched.len() ==> touched[k] < old(items).len(),
        produced ==> forall|item: int, k: int|
            0 <= item < old(items).len() && 0 <= k < old(items)[item]@.recipes.len()
                ==> old(items)[item]@.recipes[k] != position,
        !produced ==> forall|item: int, k: int|
            0 <= item < old(items).len() && 0 <= k < old(items)[item]@.usage.len()
                ==> old(items)[item]@.usage[k] != position,
    ensures
        final(items).len() == old(items).len(),
        forall|item: int|
            0 <= item < old(items).len() ==> (#[trigger] final(items)[item])@ == if produced {
                ItemView {
                    recipes: recorded(
                        old(items)[item]@.recipes,
                        position,
                        touched@.contains(item as usize),
                    ),
                    ..old(items)[item]@
                }
            } else {
                ItemView {
                    usage: recorded(
                        old(items)[item]@.usage,
                        position,
                        touched@.contains(item as usize),
                    ),
                    ..old(items)[item]@
                }
            },
{
    let mut k: usize = 0;
    while k < touched.len()
        invariant
            k <= touched.len(),
            items.len() == old(items).len(),
            forall|j: int| 0 <= j < touched.len() ==> touched[j] < items.len(),
            produced ==> forall|item: int, j: int|
                0 <= item < old(items).len() && 0 <= j < old(items)[item]@.recipes.len()
                    ==> old(items)[item]@.recipes[j] != position,
            !produced ==> forall|item: int, j: int|
                0 <= item < old(items).len() && 0 <= j < old(items)[item]@.usage.len()
                    ==> old(items)[item]@.usage[j] != position,
            forall|item: int|
                0 <= item < items.len() ==> (#[trigger] items[item])@ == if produced {
                    ItemView {
                        recipes: recorded(
                            old(items)[item]@.recipes,
                            position,
                            touched@.take(k as int).contains(item as usize),
                        ),
                        ..old(items)[item]@
                    }
                } else {
                    ItemView {
                        usage: recorded(
                            old(items)[item]@.usage,
                            position,
                            touched@.take(k as int).contains(item as usize),
                        ),
                        ..old(items)[item]@
                    }
                },
        decreases touched.len() - k,
    {
        let target = touched[k];
        let ghost before = items@;
        let ghost seen = touched@.take(k as int);
        assert(touched@.take(k + 1) == seen.push(target));
        assert(forall|item: usize|
            seen.push(target).contains(item) <==> seen.contains(item) || item == target) by {
            assert forall|item: usize|
                seen.push(target).contains(item) <==> seen.contains(item) || item == target by {
                if seen.contains(item) {
                    let j = choose|j: int| 0 <= j < seen.len() && seen[j] == item;
                    assert(seen.push(target)[j] == item);
                }
                if item == target {
                    assert(seen.push(target)[seen.len() as int] == item);
                }
            }
        }
        if produced {
            note(&mut items[target].recipes, position);
        } else {
            note(&mut items[target].usage, position);
        }
        assert(forall|item: int|
            0 <= item < items.len() && item != target ==> items[item] == before[item]);
        k += 1;
    }
    assert(touched@.take(touched.len() as int) == touched@);
}

impl Crafting {
    /// An empty catalog.
    pub fn new() -> (crafting: Self)
        ensures
            crafting@ == CraftingView::empty(),
            crafting@.wf(),
    {
        let crafting = Crafting { categories: Vec::new(), items: Vec::new(), recipes: Vec::new() };
        assert(crafting@.categories =~= Seq::empty());
        assert(crafting@.items =~= Seq::empty());
        assert(crafting@.recipes =~= Seq::empty());
        crafting
    }

    /// Appends an empty category that begins after the last item.
    pub fn add_category(&mut self, name: String)
        requires
            old(self)@.wf(),
        ensures
            final(self)@ == old(self)@.with_category(name@),
            final(self)@.wf(),
    {
        let start = self.items.len();
        self.categories.push(Category::new(name, start));
        proof {
            lemma_with_category_wf(old(self)@, name@);
            assert(self@.categories =~= old(self)@.with_category(name@).categories);
        }
    }

    /// Appends `item` to the most recent category and returns its position.
    /// The item enters without cross-references: `add_recipe` records them.
    /// Where no category exists the catalog is left as it is.
    pub fn add_item(&mut self, item: Item) -> (result: Result<usize, Error>)
        requires
            old(self)@.wf(),
        ensures
            final(self)@.wf(),
            old(self)@.categories.len() == 0 ==> result == Err::<usize, Error>(
                Error::UnanchoredItem,
            ) && final(self)@ == old(self)@,
            old(self)@.categories.len() > 0 ==> result == Ok::<usize, Error>(
                old(self)@.items.len() as usize,
            ) && final(self)@ == old(self)@.with_item(item@),
    {
        let count = self.categories.len();
        if count == 0 {
            return Err(Error::UnanchoredItem);
        }
        let position = self.items.len();
        let Item { name, image_url, recipes: _, usage: _ } = item;
        self.items.push(Item::new(name, image_url));
        proof {
            assert(self.items.len() == position + 1);
            assert(old(self)@.items.len() == position);
            lemma_with_item_wf(old(self)@, item@);
            assert(old(self)@.categories.last().end == position);
        }
        self.categories[count - 1].end += 1;
        proof {
            assert(self@.categories =~= old(self)@.with_item(item@).categories);
            assert(self@.items =~= old(self)@.with_item(item@).items);
        }
        Ok(position)
    }

    /// Appends `recipe` and records its position with every item that it
    /// consumes or produces, once for each.
    pub fn add_recipe(&mut self, recipe: Recipe)
        requires
            old(self)@.wf(),
            recipe@.in_bounds(old(self)@.items.len() as int),
        ensures
            final(self)@ == old(self)@.with_recipe(recipe@),
            final(self)@.wf(),
    {
        let position = self.recipes.len();
        let consumed = recipe.consumed();
        let produced = recipe.output.to_vec();
        proof {
            assert forall|item: usize| consumed@.contains(item) <==> recipe@.consumes(item) by {
                lemma_choices_contains(recipe@.input, item);
            }
            assert forall|k: int| 0 <= k < consumed.len() implies consumed[k] < self.items.len() by {
                let item = consumed[k];
                assert(consumed@.contains(item));
                let slot = choose|slot: int|
                    0 <= slot < recipe@.input.len() && #[trigger] recipe@.input[slot].accepts(item);
                assert(recipe@.input[slot].in_bounds(self.items.len() as int));
            }
            assert forall|item: int, k: int|
                0 <= item < self.items.len() && 0 <= k < self.items[item]@.usage.len()
                    implies self.items[item]@.usage[k] != position by {
                assert(self@.item_cross_referenced(item));
                assert(self@.items[item].usage.contains(self.items[item]@.usage[k]));
            }
        }
        record(&mut self.items, &consumed, position, false);
        proof {
            assert(old(self)@.items.len() == self.items.len());
            assert forall|k: int| 0 <= k < produced.len() implies produced[k] < self.items.len() by {
                assert(recipe@.output[k] < self.items.len());
            }
            assert forall|item: int, k: int|
                0 <= item < self.items.len() && 0 <= k < self.items[item]@.recipes.len()
                    implies self.items[item]@.recipes[k] != position by {
                assert(old(self)@.item_cross_referenced(item));
                assert(old(self)@.items[item].recipes.contains(self.items[item]@.recipes[k]));
            }
        }
        record(&mut self.items, &produced, position, true);
        self.recipes.push(recipe);
        proof {
            assert(self.recipes.len() == position + 1);
            assert(old(self)@.recipes.len() == position);
            lemma_with_recipe_wf(old(self)@, recipe@);
            assert(self@.items =~= old(self)@.with_recipe(recipe@).items);
            assert(self@.recipes =~= old(self)@.with_recipe(recipe@).recipes);
        }
    }
}

impl Crafting {
    /// The number of categories.
    pub fn category_count(&self) -> (count: usize)
        ensures
            count == self@.categories.len(),
    {
        self.categories.len()
    }

    /// The category at `position`.
    pub fn category(&self, position: usize) -> (category: &Category)
        requires
            position < self@.categories.len(),
        ensures
            category@ == self@.categories[position as int],
    {
        &self.categories[position]
    }

    /// The number of items.
    pub fn item_count(&self) -> (count: usize)
        ensures
            count == self@.items.len(),
    {
        self.items.len()
    }

    /// The item at `position`.
    pub fn item(&self, position: usize) -> (item: &Item)
        requires
            position < self@.items.len(),
        ensures
            item@ == self@.items[position as int],
    {
        &self.items[position]
    }

    /// The number of recipes.
    pub fn recipe_count(&self) -> (count: usize)
        ensures
            count == self@.recipes.len(),
    {
        self.recipes.len()
    }

    /// The recipe at `position`.
    pub fn recipe(&self, position: usize) -> (recipe: &Recipe)
        requires
            position < self@.recipes.len(),
        ensures
            recipe@ == self@.recipes[position as int],
    {
        &self.recipes[position]
    }

    /// The items that the input slots of `recipe` name, slot by slot.
    pub fn recipe_items(&self, recipe: &Recipe) -> (items: Vec<&Item>)
        requires
            recipe@.in_bounds(self@.items.len() as int),
        ensures
            items.len() == choices(recipe@.input).len(),
            forall|k: int|
                0 <= k < items.len() ==> (#[trigger] items[k])@
                    == self@.items[choices(recipe@.input)[k] as int],
    {
        let positions = recipe.consumed();
        proof {
            assert forall|k: int| 0 <= k < positions.len() implies positions[k]
                < self.items.len() by {
                let item = positions[k];
                assert(positions@.contains(item));
                lemma_choices_contains(recipe@.input, item);
                let slot = choose|slot: int|
                    0 <= slot < recipe@.input.len() && #[trigger] recipe@.input[slot].accepts(item);
                assert(recipe@.input[slot].in_bounds(self.items.len() as int));
            }
        }
        let mut items: Vec<&Item> = Vec::new();
        let mut k: usize = 0;
        while k < positions.len()
            invariant
                k <= positions.len(),
                items.len() == k,
                forall|j: int| 0 <= j < positions.len() ==> positions[j] < self.items.len(),
                forall|j: int|
                    0 <= j < k ==> (#[trigger] items[j])@ == self@.items[positions[j] as int],
            decreases positions.len() - k,
        {
            items.push(&self.items[positions[k]]);
            k += 1;
        }
        items
    }

    /// The items of `category`, which is one of this catalog's.
    pub fn items(&self, category: &Category) -> (items: &[Item])
        requires
            category@.start <= category@.end <= self@.items.len(),
        ensures
            items@.map_values(|item: Item| item@) == self@.items.subrange(
                category@.start as int,
                category@.end as int,
            ),
    {
        let items = vstd::slice::slice_subrange(
            self.items.as_slice(),
            category.start,
            category.end,
        );
        assert(items@.map_values(|item: Item| item@) =~= self@.items.subrange(
            category@.start as int,
            category@.end as int,
        ));
        items
    }
}

/// The catalog that stored parts describe.
pub open spec fn stored(categories: Seq<Category>, items: Seq<Item>, recipes: Seq<Recipe>) -> CraftingView {
    CraftingView {
        categories: categories.map_values(|category: Category| category@),
        items: items.map_values(|item: Item| item@),
        recipes: recipes.map_values(|recipe: Recipe| recipe@),
    }
}

impl Crafting {
    /// The catalog of these parts, which the caller has checked.
    pub(crate) fn assemble(categories: Vec<Category>, items: Vec<Item>, recipes: Vec<Recipe>) -> (crafting:
        Self)
        requires
            stored(categories@, items@, recipes@).wf(),
        ensures
            crafting@ == stored(categories@, items@, recipes@),
    {
        Crafting { categories, items, recipes }
    }

    /// The categories, items and recipes of the catalog, as they are stored.
    pub fn into_parts(self) -> (parts: (Vec<Category>, Vec<Item>, Vec<Recipe>))
        ensures
            stored(parts.0@, parts.1@, parts.2@) == self@,
    {
        (self.categories, self.items, self.recipes)
    }
}

impl Recipe {
    /// Whether every item named, in a slot or as an output, is below
    /// `item_count`.
    pub fn fits(&self, item_count: usize) -> (fits: bool)
        ensures
            fits == self@.in_bounds(item_count as int),
    {
        let mut slot: usize = 0;
        while slot < self.input.len()
            invariant
                slot <= self.input@.len(),
                forall|s: int| 0 <= s < slot ==> (#[trigger] self.input@[s]).in_bounds(item_count as int),
            decreases self.input@.len() - slot,
        {
            let accepted = self.input.get(slot).items();
            if !all_below(&accepted, item_count) {
                assert(!self.input@[slot as int].in_bounds(item_count as int));
                assert(self@.input[slot as int] == self.input@[slot as int]);
                return false;
            }
            slot += 1;
        }
        let output = self.output.to_vec();
        let fits = all_below(&output, item_count);
        proof {
            assert(self@.input == self.input@);
            assert(self@.output == output@);
            if fits {
                assert forall|k: int| 0 <= k < self@.output.len() implies self@.output[k]
                    < item_count by {
                    assert(output[k] < item_count);
                }
            } else {
                let k = choose|k: int| 0 <= k < output.len() && !(output[k] < item_count);
                assert(!(self@.output[k] < item_count));
            }
        }
        fits
    }

    /// Whether `item` is among the outputs.
    pub fn produces(&self, item: usize) -> (produces: bool)
        ensures
            produces == self@.produces(item),
    {
        self.output.contains(item)
    }

    /// Whether `item` can fill one of the input slots.
    pub fn consumes(&self, item: usize) -> (consumes: bool)
        ensures
            consumes == self@.consumes(item),
    {
        let mut slot: usize = 0;
        while slot < self.input.len()
            invariant
                slot <= self.input@.len(),
                forall|s: int| 0 <= s < slot ==> !(#[trigger] self.input@[s]).accepts(item),
            decreases self.input@.len() - slot,
        {
            if self.input.get(slot).accepts(item) {
                assert(self@.input[slot as int].accepts(item));
                return true;
            }
            slot += 1;
        }
        assert(self@.input == self.input@);
        false
    }
}

impl Ingredient {
    /// Whether `item` can fill the slot.
    pub fn accepts(&self, item: usize) -> (accepts: bool)
        ensures
            accepts == self@.accepts(item),
    {
        match self {
            Ingredient::Unique(only) => {
                assert(seq![*only][0] == *only);
                *only == item
            },
            Ingredient::Alternatives(alternatives) => alternatives.contains(item),
        }
    }
}

/// Whether every one of `positions` is below `bound`.
fn all_below(positions: &Vec<usize>, bound: usize) -> (below: bool)
    ensures
        below == forall|k: int| 0 <= k < positions.len() ==> positions[k] < bound,
{
    let mut k: usize = 0;
    while k < positions.len()
        invariant
            k <= positions.len(),
            forall|j: int| 0 <= j < k ==> positions[j] < bound,
        decreases positions.len() - k,
    {
        if positions[k] >= bound {
            return false;
        }
        k += 1;
    }
    true
}

impl Default for Recipe {
    /// A recipe without inputs or outputs.
    fn default() -> (recipe: Self)
        ensures
            recipe@ == (RecipeView { input: Seq::empty(), output: Seq::empty() }),
    {
        Recipe::new()
    }
}

impl Default for Crafting {
    /// An empty catalog.
    fn default() -> (crafting: Self)
        ensures
            crafting@ == CraftingView::empty(),
            crafting@.wf(),
    {
        Crafting::new()
    }
}

} // verus!
