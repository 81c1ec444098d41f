//! The recipe compiler: authored declarations, which refer to items by name,
//! become the catalog, which refers to them by position.

use crate::error::{Error, ErrorView};
use crate::graph;
use crate::graph::Crafting;
use crate::lists::IndexList;
use vstd::hash_map::StringHashMap;
use vstd::prelude::*;

verus! {

/// The position under which each item name was registered.
pub struct ItemMap {
    positions: StringHashMap<usize>,
}

impl View for ItemMap {
    type V = Map<Seq<char>, usize>;

    closed spec fn view(&self) -> Map<Seq<char>, usize> {
        self.positions@
    }
}

/// The position of `name`, or the failure on a name that `map` does not
/// know.
pub open spec fn resolve_name(name: Seq<char>, map: Map<Seq<char>, usize>) -> Result<
    usize,
    ErrorView,
> {
    if map.contains_key(name) {
        Ok(map[name])
    } else {
        Err(ErrorView::UnknownItemName(name))
    }
}

impl ItemMap {
    /// A map that knows no name.
    pub fn new() -> (map: Self)
        ensures
            map@ == Map::<Seq<char>, usize>::empty(),
    {
        ItemMap { positions: StringHashMap::new() }
    }

    /// Registers `name` at `position`. A name registered before now stands
    /// for the new position.
    pub fn insert(&mut self, name: String, position: usize)
        ensures
            final(self)@ == old(self)@.insert(name@, position),
    {
        self.positions.insert(name, position);
    }

    /// The position that `name` was registered at.
    pub fn resolve(&self, name: String) -> (result: Result<usize, Error>)
        ensures
            match result {
                Ok(position) => resolve_name(name@, self@) == Ok::<usize, ErrorView>(position),
                Err(error) => resolve_name(name@, self@) == Err::<usize, ErrorView>(error@),
            },
    {
        match self.positions.get(name.as_str()) {
            Some(position) => Ok(*position),
            None => Err(Error::UnknownItemName(name)),
        }
    }
}

/// The values of `results` in their order, or the first failure among them.
pub open spec fn collect<T>(results: Seq<Result<T, ErrorView>>) -> Result<Seq<T>, ErrorView>
    decreases results.len(),
{
    if results.len() == 0 {
        Ok(Seq::empty())
    } else {
        match collect(results.drop_last()) {
            Err(error) => Err(error),
            Ok(values) => match results.last() {
                Ok(value) => Ok(values.push(value)),
                Err(error) => Err(error),
            },
        }
    }
}

/// `collect` of one result more.
pub proof fn lemma_collect_step<T>(results: Seq<Result<T, ErrorView>>, k: int)
    requires
        0 <= k < results.len(),
    ensures
        collect(results.take(k + 1)) == match collect(results.take(k)) {
            Err(error) => Err::<Seq<T>, ErrorView>(error),
            Ok(values) => match results[k] {
                Ok(value) => Ok(values.push(value)),
                Err(error) => Err(error),
            },
        },
{
    assert(results.take(k + 1).drop_last() == results.take(k));
    assert(results.take(k + 1).last() == results[k]);
}

/// A failure among the first `k` results is the failure of the whole.
pub proof fn lemma_collect_stops<T>(results: Seq<Result<T, ErrorView>>, k: int)
    requires
        0 <= k <= results.len(),
        collect(results.take(k)) is Err,
    ensures
        collect(results) == collect(results.take(k)),
    decreases results.len() - k,
{
    if k < results.len() {
        lemma_collect_step(results, k);
        lemma_collect_stops(results, k + 1);
    } else {
        assert(results.take(k) == results);
    }
}

/// `collect` succeeds exactly where every result is a value, and then holds
/// the values in their order.
pub proof fn lemma_collect_ok<T>(results: Seq<Result<T, ErrorView>>)
    ensures
        collect(results) is Ok <==> forall|i: int| 0 <= i < results.len() ==> results[i] is Ok,
        collect(results) matches Ok(values) ==> values.len() == results.len() && forall|i: int|
            0 <= i < results.len() ==> results[i] == Ok::<T, ErrorView>(values[i]),
    decreases results.len(),
{
    if results.len() > 0 {
        let front = results.drop_last();
        lemma_collect_ok(front);
        if collect(front) is Ok {
            assert forall|i: int| 0 <= i < front.len() implies results[i] is Ok by {
                assert(front[i] is Ok);
            }
        } else {
            let i = choose|i: int| 0 <= i < front.len() && !(front[i] is Ok);
            assert(!(results[i] is Ok));
        }
        if collect(results) is Ok {
            let values = collect(results)->Ok_0;
            assert forall|i: int| 0 <= i < results.len() implies results[i] == Ok::<T, ErrorView>(
                values[i],
            ) by {
                if i < front.len() {
                    assert(front[i] == results[i]);
                }
            }
        }
    }
}

/// A failure of `collect` is the first failure among the results.
pub proof fn lemma_collect_err<T>(results: Seq<Result<T, ErrorView>>) -> (k: int)
    requires
        collect(results) is Err,
    ensures
        0 <= k < results.len(),
        results[k] is Err,
        results[k]->Err_0 == collect(results)->Err_0,
        forall|i: int| 0 <= i < k ==> results[i] is Ok,
    decreases results.len(),
{
    let front = results.drop_last();
    if collect(front) is Err {
        let k = lemma_collect_err(front);
        assert(front[k] == results[k]);
        assert forall|i: int| 0 <= i < k implies results[i] is Ok by {
            assert(front[i] is Ok);
        }
        k
    } else {
        lemma_collect_ok(front);
        assert forall|i: int| 0 <= i < results.len() - 1 implies results[i] is Ok by {
            assert(front[i] is Ok);
        }
        results.len() - 1
    }
}

/// An item as it is declared.
#[derive(Debug)]
pub struct Item {
    pub name: String,
    pub image_url: String,
}

/// What an [`Item`] stands for.
pub struct ItemView {
    pub name: Seq<char>,
    pub image_url: Seq<char>,
}

impl View for Item {
    type V = ItemView;

    open spec fn view(&self) -> ItemView {
        ItemView { name: self.name@, image_url: self.image_url@ }
    }
}

impl ItemView {
    /// The item as it enters the catalog.
    pub open spec fn convert(self) -> graph::ItemView {
        graph::ItemView {
            name: self.name,
            image_url: self.image_url,
            recipes: Seq::empty(),
            usage: Seq::empty(),
        }
    }
}

impl Item {
    /// The item as it enters the catalog: no recipe refers to it yet.
    pub fn convert(self) -> (item: graph::Item)
        ensures
            item@ == self@.convert(),
    {
        graph::Item::new(self.name, self.image_url)
    }
}

/// A category as it is declared, with its items.
#[derive(Debug)]
pub struct Category {
    pub name: String,
    pub items: Vec<Item>,
}

/// What a [`Category`] stands for.
pub struct CategoryView {
    pub name: Seq<char>,
    pub items: Seq<ItemView>,
}

impl View for Category {
    type V = CategoryView;

    open spec fn view(&self) -> CategoryView {
        CategoryView { name: self.name@, items: self.items@.map_values(|item: Item| item@) }
    }
}

/// The names that `names` holds.
pub open spec fn texts(names: Seq<String>) -> Seq<Seq<char>> {
    names.map_values(|name: String| name@)
}

/// An input slot as it is declared: one name, or a list of names of which
/// any one fills the slot.
#[derive(Debug)]
pub enum Ingredient {
    Unique(String),
    Alternatives(Vec<String>),
}

/// What an [`Ingredient`] stands for.
pub enum IngredientView {
    Unique(Seq<char>),
    Alternatives(Seq<Seq<char>>),
}

impl View for Ingredient {
    type V = IngredientView;

    open spec fn view(&self) -> IngredientView {
        match *self {
            Ingredient::Unique(name) => IngredientView::Unique(name@),
            Ingredient::Alternatives(names) => IngredientView::Alternatives(texts(names@)),
        }
    }
}

/// What resolving each of `names` gives.
pub open spec fn name_results(names: Seq<Seq<char>>, map: Map<Seq<char>, usize>) -> Seq<
    Result<usize, ErrorView>,
> {
    names.map_values(|name: Seq<char>| resolve_name(name, map))
}

/// The positions of `names` in their order, or the failure on the first of
/// them that `map` does not know.
pub open spec fn resolve_names(names: Seq<Seq<char>>, map: Map<Seq<char>, usize>) -> Result<
    Seq<usize>,
    ErrorView,
> {
    collect(name_results(names, map))
}

impl IngredientView {
    /// The names that the slot mentions, in their order.
    pub open spec fn names(self) -> Seq<Seq<char>> {
        match self {
            IngredientView::Unique(name) => seq![name],
            IngredientView::Alternatives(names) => names,
        }
    }

    /// The slot with each name replaced by its position, or the failure on
    /// the first name that `map` does not know.
    pub open spec fn resolve(self, map: Map<Seq<char>, usize>) -> Result<
        graph::IngredientView,
        ErrorView,
    > {
        match self {
            IngredientView::Unique(name) => match resolve_name(name, map) {
                Ok(position) => Ok(graph::IngredientView::Unique(position)),
                Err(error) => Err(error),
            },
            IngredientView::Alternatives(names) => match resolve_names(names, map) {
                Ok(positions) => Ok(graph::IngredientView::Alternatives(positions)),
                Err(error) => Err(error),
            },
        }
    }
}

/// Resolves `names` in their order and stops at the first unknown one.
pub fn resolve_all(names: Vec<String>, item_map: &ItemMap) -> (result: Result<Vec<usize>, Error>)
    ensures
        match result {
            Ok(positions) => resolve_names(texts(names@), item_map@) == Ok::<Seq<usize>, ErrorView>(
                positions@,
            ),
            Err(error) => resolve_names(texts(names@), item_map@) == Err::<Seq<usize>, ErrorView>(
                error@,
            ),
        },
{
    let ghost results = name_results(texts(names@), item_map@);
    let mut positions: Vec<usize> = Vec::new();
    for name in iter: names
        invariant
            name_results(texts(iter.seq()), item_map@) == results,
            results.len() == iter.seq().len(),
            collect(results.take(iter.index())) == Ok::<Seq<usize>, ErrorView>(positions@),
    {
        proof {
            lemma_collect_step(results, iter.index());
            assert(results[iter.index()] == resolve_name(name@, item_map@));
        }
        match item_map.resolve(name) {
            Ok(position) => {
                positions.push(position);
            },
            Err(error) => {
                proof {
                    lemma_collect_stops(results, iter.index() + 1);
                }
                return Err(error);
            },
        }
    }
    proof {
        assert(results.take(results.len() as int) == results);
    }
    Ok(positions)
}

impl Ingredient {
    /// The slot with each name replaced by the position it was registered
    /// at. Fails on the first name that was never registered.
    pub fn convert(self, item_map: &ItemMap) -> (result: Result<graph::Ingredient, Error>)
        ensures
            match result {
                Ok(ingredient) => self@.resolve(item_map@) == Ok::<graph::IngredientView, ErrorView>(
                    ingredient@,
                ),
                Err(error) => self@.resolve(item_map@) == Err::<graph::IngredientView, ErrorView>(
                    error@,
                ),
            },
    {
        match self {
            Ingredient::Unique(name) => match item_map.resolve(name) {
                Ok(position) => Ok(graph::Ingredient::Unique(position)),
                Err(error) => Err(error),
            },
            Ingredient::Alternatives(names) => match resolve_all(names, item_map) {
                Ok(positions) => Ok(
                    graph::Ingredient::Alternatives(IndexList::from_vec(&positions)),
                ),
                Err(error) => Err(error),
            },
        }
    }
}

/// `collect` of two runs of results, one after the other.
pub proof fn lemma_collect_concat<T>(
    front: Seq<Result<T, ErrorView>>,
    back: Seq<Result<T, ErrorView>>,
)
    ensures
        collect(front + back) == match collect(front) {
            Err(error) => Err::<Seq<T>, ErrorView>(error),
            Ok(values) => match collect(back) {
                Ok(more) => Ok(values + more),
                Err(error) => Err(error),
            },
        },
    decreases back.len(),
{
    if back.len() == 0 {
        assert(front + back == front);
        if collect(front) is Ok {
            assert(collect(front)->Ok_0 + Seq::<T>::empty() == collect(front)->Ok_0);
        }
    } else {
        lemma_collect_concat(front, back.drop_last());
        assert((front + back).drop_last() == front + back.drop_last());
        assert((front + back).last() == back.last());
        if collect(front) is Ok && collect(back.drop_last()) is Ok && back.last() is Ok {
            let values = collect(front)->Ok_0;
            let more = collect(back.drop_last())->Ok_0;
            assert((values + more).push(back.last()->Ok_0) == values + more.push(
                back.last()->Ok_0,
            ));
        }
    }
}

/// The slots that `input` holds.
pub open spec fn ingredient_views(input: Seq<Ingredient>) -> Seq<IngredientView> {
    input.map_values(|ingredient: Ingredient| ingredient@)
}

/// What resolving each slot of `input` gives.
pub open spec fn input_results(input: Seq<IngredientView>, map: Map<Seq<char>, usize>) -> Seq<
    Result<graph::IngredientView, ErrorView>,
> {
    input.map_values(|ingredient: IngredientView| ingredient.resolve(map))
}

/// A plain recipe as it is declared: slots and outputs, by name.
pub struct RegularView {
    pub input: Seq<IngredientView>,
    pub output: Seq<Seq<char>>,
}

impl RegularView {
    /// The recipe with each name replaced by its position. The names are
    /// looked up slot by slot and then output by output; the first that
    /// `map` does not know is the failure.
    pub open spec fn resolve(self, map: Map<Seq<char>, usize>) -> Result<
        graph::RecipeView,
        ErrorView,
    > {
        match collect(input_results(self.input, map)) {
            Err(error) => Err(error),
            Ok(input) => match resolve_names(self.output, map) {
                Err(error) => Err(error),
                Ok(output) => Ok(graph::RecipeView { input, output }),
            },
        }
    }
}

/// What resolving each of `recipes` gives.
pub open spec fn recipe_results(recipes: Seq<RegularView>, map: Map<Seq<char>, usize>) -> Seq<
    Result<graph::RecipeView, ErrorView>,
> {
    recipes.map_values(|recipe: RegularView| recipe.resolve(map))
}

/// The recipes that `recipes` holds.
pub open spec fn compiled_views(recipes: Seq<graph::Recipe>) -> Seq<graph::RecipeView> {
    recipes.map_values(|recipe: graph::Recipe| recipe@)
}

/// The generic augmentor: the weakest of the three.
pub const AUGMENTOR: &'static str = "Augmentor";

/// The augmentor of the middle tier.
pub const HIGH_QUALITY_AUGMENTOR: &'static str = "High Quality Augmentor";

/// The strongest augmentor.
pub const ULTIMATE_AUGMENTOR: &'static str = "Ultimate Augmentor Herb";

/// The three augmentors, weakest first.
pub open spec fn augmentor_names() -> Seq<Seq<char>> {
    seq![AUGMENTOR@, HIGH_QUALITY_AUGMENTOR@, ULTIMATE_AUGMENTOR@]
}

/// The `count` strongest augmentors, weakest first.
pub open spec fn augmentors(count: int) -> Seq<Seq<char>> {
    augmentor_names().skip(3 - count)
}

/// How many augmentors the upgrade step `step` offers, the step to the
/// strongest tier being step zero: the first `ult` steps offer only the
/// ultimate one, the next `hq` steps the two strongest, the rest all three.
pub open spec fn augmentor_tier(step: int, hq: int, ult: int) -> int {
    if step < ult {
        1
    } else if step < ult + hq {
        2
    } else {
        3
    }
}

/// Two of `weaker` give one of `stronger`.
pub open spec fn brute_force(weaker: Seq<char>, stronger: Seq<char>) -> RegularView {
    RegularView {
        input: seq![IngredientView::Unique(weaker), IngredientView::Unique(weaker)],
        output: seq![stronger],
    }
}

/// One of `weaker` and any one of the `count` strongest augmentors give one
/// of `stronger`.
pub open spec fn augmented(weaker: Seq<char>, stronger: Seq<char>, count: int) -> RegularView {
    RegularView {
        input: seq![
            IngredientView::Unique(weaker),
            IngredientView::Alternatives(augmentors(count)),
        ],
        output: seq![stronger],
    }
}

/// The two recipes of one upgrade step.
pub open spec fn potion_step(weaker: Seq<char>, stronger: Seq<char>, count: int) -> Seq<
    RegularView,
> {
    seq![brute_force(weaker, stronger), augmented(weaker, stronger, count)]
}

/// The number of upgrade steps between `levels` tiers.
pub open spec fn potion_steps(levels: int) -> int {
    if levels <= 1 {
        0
    } else {
        levels - 1
    }
}

/// The recipes that a chain of tiers stands for, `levels` being given
/// weakest first: two for each pair of neighbouring tiers, the pair of the
/// two strongest tiers first.
pub open spec fn potion_recipes(levels: Seq<Seq<char>>, hq: int, ult: int) -> Seq<RegularView> {
    Seq::new(
        (2 * potion_steps(levels.len() as int)) as nat,
        |i: int|
            {
                let step = i / 2;
                let weaker = levels[levels.len() - 2 - step];
                let stronger = levels[levels.len() - 1 - step];
                if i % 2 == 0 {
                    brute_force(weaker, stronger)
                } else {
                    augmented(weaker, stronger, augmentor_tier(step, hq, ult))
                }
            },
    )
}

/// The recipes of the first `step + 1` steps are those of the first `step`
/// steps and the two of step `step`.
pub proof fn lemma_potion_recipes_step(levels: Seq<Seq<char>>, hq: int, ult: int, step: int)
    requires
        0 <= step < potion_steps(levels.len() as int),
    ensures
        potion_recipes(levels, hq, ult).len() == 2 * potion_steps(levels.len() as int),
        potion_recipes(levels, hq, ult).take(2 * step + 2) == potion_recipes(levels, hq, ult).take(
            2 * step,
        ) + potion_step(
            levels[levels.len() - 2 - step],
            levels[levels.len() - 1 - step],
            augmentor_tier(step, hq, ult),
        ),
{
    let all = potion_recipes(levels, hq, ult);
    let pair = potion_step(
        levels[levels.len() - 2 - step],
        levels[levels.len() - 1 - step],
        augmentor_tier(step, hq, ult),
    );
    assert(all[2 * step] == pair[0]);
    assert(all[2 * step + 1] == pair[1]);
    assert(all.take(2 * step + 2) =~= all.take(2 * step) + pair);
}

/// Resolving the first `k + more.len()` recipes, where `more` are the
/// recipes from `k` on.
pub proof fn lemma_recipe_results_take(
    recipes: Seq<RegularView>,
    map: Map<Seq<char>, usize>,
    k: int,
    more: Seq<RegularView>,
)
    requires
        0 <= k,
        k + more.len() <= recipes.len(),
        recipes.take(k + more.len()) == recipes.take(k) + more,
    ensures
        recipe_results(recipes, map).take(k + more.len()) == recipe_results(recipes, map).take(k)
            + recipe_results(more, map),
{
    let results = recipe_results(recipes, map);
    let joined = results.take(k) + recipe_results(more, map);
    assert forall|i: int| 0 <= i < k + more.len() implies results.take(k + more.len())[i]
        == joined[i] by {
        if i >= k {
            assert(recipes.take(k + more.len())[i] == more[i - k]);
        }
    }
    assert(results.take(k + more.len()) =~= joined);
}

/// The budget that a declaration gives, one where it gives none.
pub open spec fn budget(declared: Option<u8>) -> int {
    match declared {
        Some(count) => count as int,
        None => 1,
    }
}

/// A recipe declaration.
#[derive(Debug)]
pub enum Recipe {
    /// One recipe, with its slots and outputs by name.
    Regular { input: Vec<Ingredient>, output: Vec<String> },
    /// A chain of potion tiers, weakest first, that stands for the upgrade
    /// recipes between neighbouring tiers.
    PotionUpgrade {
        potion_levels: Vec<String>,
        hq_augmentors: Option<u8>,
        ult_augmentors: Option<u8>,
    },
}

/// What a [`Recipe`] stands for.
pub enum RecipeView {
    Regular(RegularView),
    PotionUpgrade {
        potion_levels: Seq<Seq<char>>,
        hq_augmentors: Option<u8>,
        ult_augmentors: Option<u8>,
    },
}

impl View for Recipe {
    type V = RecipeView;

    open spec fn view(&self) -> RecipeView {
        match *self {
            Recipe::Regular { input, output } => RecipeView::Regular(
                RegularView { input: ingredient_views(input@), output: texts(output@) },
            ),
            Recipe::PotionUpgrade {
                potion_levels,
                hq_augmentors,
                ult_augmentors,
            } => RecipeView::PotionUpgrade {
                potion_levels: texts(potion_levels@),
                hq_augmentors,
                ult_augmentors,
            },
        }
    }
}

impl RecipeView {
    /// The plain recipes that the declaration stands for.
    pub open spec fn expand(self) -> Seq<RegularView> {
        match self {
            RecipeView::Regular(recipe) => seq![recipe],
            RecipeView::PotionUpgrade {
                potion_levels,
                hq_augmentors,
                ult_augmentors,
            } => potion_recipes(potion_levels, budget(hq_augmentors), budget(ult_augmentors)),
        }
    }

    /// The recipes of the catalog that the declaration stands for, or the
    /// failure on the first name that `map` does not know.
    pub open spec fn compile(self, map: Map<Seq<char>, usize>) -> Result<
        Seq<graph::RecipeView>,
        ErrorView,
    > {
        collect(recipe_results(self.expand(), map))
    }
}

/// The names of the `count` strongest augmentors, weakest first.
fn augmentor_list(count: u8) -> (names: Vec<String>)
    requires
        count <= 3,
    ensures
        texts(names@) == augmentors(count as int),
{
    let mut names: Vec<String> = Vec::new();
    if count >= 3 {
        names.push(AUGMENTOR.to_owned());
    }
    if count >= 2 {
        names.push(HIGH_QUALITY_AUGMENTOR.to_owned());
    }
    if count >= 1 {
        names.push(ULTIMATE_AUGMENTOR.to_owned());
    }
    assert(texts(names@) =~= augmentors(count as int));
    names
}

impl Recipe {
    /// The recipe with each name replaced by the position it was registered
    /// at: the slots first, then the outputs. Fails on the first name that
    /// was never registered.
    pub fn build_recipe(input: Vec<Ingredient>, output: Vec<String>, item_map: &ItemMap) -> (result:
        Result<graph::Recipe, Error>)
        ensures
            match result {
                Ok(recipe) => (RegularView {
                    input: ingredient_views(input@),
                    output: texts(output@),
                }).resolve(item_map@) == Ok::<graph::RecipeView, ErrorView>(recipe@),
                Err(error) => (RegularView {
                    input: ingredient_views(input@),
                    output: texts(output@),
                }).resolve(item_map@) == Err::<graph::RecipeView, ErrorView>(error@),
            },
    {
        let ghost results = input_results(ingredient_views(input@), item_map@);
        let mut result = graph::Recipe::new();
        for ingredient in iter: input
            invariant
                input_results(ingredient_views(iter.seq()), item_map@) == results,
                results.len() == iter.seq().len(),
                collect(results.take(iter.index())) == Ok::<Seq<graph::IngredientView>, ErrorView>(
                    result@.input,
                ),
                result@.output == Seq::<usize>::empty(),
        {
            proof {
                lemma_collect_step(results, iter.index());
                assert(results[iter.index()] == ingredient@.resolve(item_map@));
            }
            match ingredient.convert(item_map) {
                Ok(slot) => {
                    result.add_input(slot);
                },
                Err(error) => {
                    proof {
                        lemma_collect_stops(results, iter.index() + 1);
                    }
                    return Err(error);
                },
            }
        }
        proof {
            assert(results.take(results.len() as int) == results);
        }
        let positions = match resolve_all(output, item_map) {
            Ok(positions) => positions,
            Err(error) => {
                return Err(error);
            },
        };
        let mut k: usize = 0;
        while k < positions.len()
            invariant
                k <= positions.len(),
                collect(results) == Ok::<Seq<graph::IngredientView>, ErrorView>(result@.input),
                result@.output == positions@.take(k as int),
            decreases positions.len() - k,
        {
            result.add_output(positions[k]);
            proof {
                assert(positions@.take(k as int).push(positions@[k as int]) == positions@.take(
                    k + 1,
                ));
            }
            k += 1;
        }
        proof {
            assert(positions@.take(positions.len() as int) == positions@);
        }
        Ok(result)
    }

    /// Appends the two recipes of one upgrade step to `recipes`: two of
    /// `input` give one of `output`, and one of `input` with any one of the
    /// `augmentor_count` strongest augmentors gives one of `output`. Where a
    /// name is unknown, `recipes` is left as it is.
    pub fn add_potion_recipes(
        recipes: &mut Vec<graph::Recipe>,
        input: String,
        output: String,
        augmentor_count: u8,
        item_map: &ItemMap,
    ) -> (result: Result<(), Error>)
        requires
            augmentor_count <= 3,
        ensures
            match result {
                Ok(_) => {
                    let added = collect(
                        recipe_results(
                            potion_step(input@, output@, augmentor_count as int),
                            item_map@,
                        ),
                    );
                    &&& added is Ok
                    &&& compiled_views(final(recipes)@) == compiled_views(old(recipes)@)
                        + added->Ok_0
                },
                Err(error) => {
                    &&& collect(
                        recipe_results(
                            potion_step(input@, output@, augmentor_count as int),
                            item_map@,
                        ),
                    ) == Err::<Seq<graph::RecipeView>, ErrorView>(error@)
                    &&& final(recipes)@ == old(recipes)@
                },
            },
    {
        let ghost step = potion_step(input@, output@, augmentor_count as int);
        let ghost results = recipe_results(step, item_map@);
        proof {
            lemma_collect_step(results, 0);
            lemma_collect_step(results, 1);
            assert(results.take(0) == Seq::<Result<graph::RecipeView, ErrorView>>::empty());
            assert(results.take(2) == results);
        }
        let augmentors = augmentor_list(augmentor_count);

        let mut twice: Vec<Ingredient> = Vec::new();
        twice.push(Ingredient::Unique(input.clone()));
        twice.push(Ingredient::Unique(input.clone()));
        let mut stronger: Vec<String> = Vec::new();
        stronger.push(output.clone());
        proof {
            assert(ingredient_views(twice@) =~= brute_force(input@, output@).input);
            assert(texts(stronger@) =~= brute_force(input@, output@).output);
        }
        let plain = match Self::build_recipe(twice, stronger, item_map) {
            Ok(recipe) => recipe,
            Err(error) => {
                proof {
                    lemma_collect_stops(results, 1);
                }
                return Err(error);
            },
        };

        let mut helped: Vec<Ingredient> = Vec::new();
        helped.push(Ingredient::Unique(input));
        helped.push(Ingredient::Alternatives(augmentors));
        let mut stronger: Vec<String> = Vec::new();
        stronger.push(output);
        proof {
            assert(ingredient_views(helped@) =~= augmented(
                input@,
                output@,
                augmentor_count as int,
            ).input);
            assert(texts(stronger@) =~= augmented(input@, output@, augmentor_count as int).output);
        }
        let eased = match Self::build_recipe(helped, stronger, item_map) {
            Ok(recipe) => recipe,
            Err(error) => {
                return Err(error);
            },
        };
        recipes.push(plain);
        recipes.push(eased);
        proof {
            assert(compiled_views(recipes@) =~= compiled_views(old(recipes)@) + seq![
                plain@,
                eased@,
            ]);
            assert(Seq::<graph::RecipeView>::empty().push(plain@).push(eased@) =~= seq![
                plain@,
                eased@,
            ]);
        }
        Ok(())
    }

    /// The recipes of the catalog that the declaration stands for. A plain
    /// declaration gives one recipe. A chain of potion tiers gives two for
    /// each pair of neighbouring tiers, the strongest pair first; the
    /// ultimate augmentors are spent on the first of these steps, the high
    /// quality ones on the next. Fails on the first name that was never
    /// registered.
    pub fn convert(self, item_map: &ItemMap) -> (result: Result<Vec<graph::Recipe>, Error>)
        ensures
            match result {
                Ok(recipes) => self@.compile(item_map@) == Ok::<Seq<graph::RecipeView>, ErrorView>(
                    compiled_views(recipes@),
                ),
                Err(error) => self@.compile(item_map@) == Err::<Seq<graph::RecipeView>, ErrorView>(
                    error@,
                ),
            },
    {
        match self {
            Recipe::Regular { input, output } => {
                let ghost results = recipe_results(self@.expand(), item_map@);
                proof {
                    lemma_collect_step(results, 0);
                    assert(results.take(0) == Seq::<Result<graph::RecipeView, ErrorView>>::empty());
                    assert(results.take(1) == results);
                }
                match Self::build_recipe(input, output, item_map) {
                    Ok(recipe) => {
                        let mut recipes: Vec<graph::Recipe> = Vec::new();
                        recipes.push(recipe);
                        proof {
                            assert(compiled_views(recipes@) =~= Seq::<graph::RecipeView>::empty().push(
                                recipe@,
                            ));
                        }
                        Ok(recipes)
                    },
                    Err(error) => Err(error),
                }
            },
            Recipe::PotionUpgrade {
                potion_levels,
                hq_augmentors,
                ult_augmentors,
            } => Self::upgrade_chain(
                potion_levels,
                hq_augmentors.unwrap_or(1),
                ult_augmentors.unwrap_or(1),
                item_map,
            ),
        }
    }

    /// The upgrade recipes between the neighbouring tiers of `potion_levels`,
    /// which are given weakest first. The step to the strongest tier comes
    /// first. Each step takes the cheapest augmentors that the budgets still
    /// allow: only the ultimate one while `ult_augmentors` lasts, then the
    /// two strongest while `hq_augmentors` lasts, then all three.
    pub fn upgrade_chain(
        potion_levels: Vec<String>,
        hq_augmentors: u8,
        ult_augmentors: u8,
        item_map: &ItemMap,
    ) -> (result: Result<Vec<graph::Recipe>, Error>)
        ensures
            match result {
                Ok(recipes) => collect(
                    recipe_results(
                        potion_recipes(
                            texts(potion_levels@),
                            hq_augmentors as int,
                            ult_augmentors as int,
                        ),
                        item_map@,
                    ),
                ) == Ok::<Seq<graph::RecipeView>, ErrorView>(compiled_views(recipes@)),
                Err(error) => collect(
                    recipe_results(
                        potion_recipes(
                            texts(potion_levels@),
                            hq_augmentors as int,
                            ult_augmentors as int,
                        ),
                        item_map@,
                    ),
                ) == Err::<Seq<graph::RecipeView>, ErrorView>(error@),
            },
    {
        let ghost levels = texts(potion_levels@);
        let ghost all = potion_recipes(levels, hq_augmentors as int, ult_augmentors as int);
        let ghost results = recipe_results(all, item_map@);
        let mut recipes: Vec<graph::Recipe> = Vec::new();
        let mut hq_left: u8 = hq_augmentors;
        let mut ult_left: u8 = ult_augmentors;
        let count = potion_levels.len();
        let steps: usize = if count <= 1 {
            0
        } else {
            count - 1
        };
        let mut step: usize = 0;
        proof {
            assert(results.take(0) == Seq::<Result<graph::RecipeView, ErrorView>>::empty());
            assert(compiled_views(recipes@) =~= Seq::<graph::RecipeView>::empty());
        }
        while step < steps
            invariant
                step <= steps,
                count == potion_levels.len(),
                steps == potion_steps(count as int),
                levels == texts(potion_levels@),
                all == potion_recipes(levels, hq_augmentors as int, ult_augmentors as int),
                results == recipe_results(all, item_map@),
                ult_left == if step <= ult_augmentors {
                    ult_augmentors - step
                } else {
                    0
                },
                hq_left == if step <= ult_augmentors {
                    hq_augmentors as int
                } else if step - ult_augmentors <= hq_augmentors {
                    hq_augmentors - (step - ult_augmentors)
                } else {
                    0
                },
                collect(results.take(2 * step)) == Ok::<Seq<graph::RecipeView>, ErrorView>(
                    compiled_views(recipes@),
                ),
            decreases steps - step,
        {
            let weaker = potion_levels[count - 2 - step].clone();
            let stronger = potion_levels[count - 1 - step].clone();
            let tier: u8 = if ult_left > 0 {
                ult_left -= 1;
                1
            } else if hq_left > 0 {
                hq_left -= 1;
                2
            } else {
                3
            };
            proof {
                assert(tier == augmentor_tier(
                    step as int,
                    hq_augmentors as int,
                    ult_augmentors as int,
                ));
                let pair = potion_step(weaker@, stronger@, tier as int);
                lemma_potion_recipes_step(
                    levels,
                    hq_augmentors as int,
                    ult_augmentors as int,
                    step as int,
                );
                lemma_recipe_results_take(all, item_map@, 2 * step, pair);
                lemma_collect_concat(results.take(2 * step), recipe_results(pair, item_map@));
            }
            match Self::add_potion_recipes(&mut recipes, weaker, stronger, tier, item_map) {
                Ok(_) => {},
                Err(error) => {
                    proof {
                        lemma_collect_stops(results, 2 * step + 2);
                    }
                    return Err(error);
                },
            }
            step += 1;
        }
        proof {
            assert(results.take(2 * steps) == results);
        }
        Ok(recipes)
    }
}

/// The items that `items` holds.
pub open spec fn item_views(items: Seq<Item>) -> Seq<ItemView> {
    items.map_values(|item: Item| item@)
}

/// The categories that `categories` holds.
pub open spec fn category_views(categories: Seq<Category>) -> Seq<CategoryView> {
    categories.map_values(|category: Category| category@)
}

/// The declarations that `recipes` holds.
pub open spec fn recipe_views(recipes: Seq<Recipe>) -> Seq<RecipeView> {
    recipes.map_values(|recipe: Recipe| recipe@)
}

/// The catalog while its items are registered, and the positions of their
/// names.
pub struct Registry {
    pub catalog: graph::CraftingView,
    pub names: Map<Seq<char>, usize>,
}

impl Registry {
    /// Nothing registered.
    pub open spec fn empty() -> Registry {
        Registry { catalog: graph::CraftingView::empty(), names: Map::empty() }
    }

    /// The catalog is well formed and every name stands for an item of it.
    pub open spec fn wf(self) -> bool {
        &&& self.catalog.wf()
        &&& forall|name: Seq<char>| #[trigger]
            self.names.contains_key(name) ==> self.names[name] < self.catalog.items.len()
    }

    /// After `item` was appended to the last category and its name recorded.
    pub open spec fn with_item(self, item: ItemView) -> Registry {
        Registry {
            catalog: self.catalog.with_item(item.convert()),
            names: self.names.insert(item.name, self.catalog.items.len() as usize),
        }
    }

    /// After each of `items` was appended to the last category.
    pub open spec fn with_items(self, items: Seq<ItemView>) -> Registry
        decreases items.len(),
    {
        if items.len() == 0 {
            self
        } else {
            self.with_items(items.drop_last()).with_item(items.last())
        }
    }

    /// After `category` was appended with its items.
    pub open spec fn with_category(self, category: CategoryView) -> Registry {
        Registry {
            catalog: self.catalog.with_category(category.name),
            names: self.names,
        }.with_items(category.items)
    }

    /// After each of `categories` was appended with its items.
    pub open spec fn with_categories(self, categories: Seq<CategoryView>) -> Registry
        decreases categories.len(),
    {
        if categories.len() == 0 {
            self
        } else {
            self.with_categories(categories.drop_last()).with_category(categories.last())
        }
    }
}

/// The recipes of the catalog that `recipes` stand for, declaration by
/// declaration, or the failure on the first name that `map` does not know.
pub open spec fn compile_all(recipes: Seq<RecipeView>, map: Map<Seq<char>, usize>) -> Result<
    Seq<graph::RecipeView>,
    ErrorView,
>
    decreases recipes.len(),
{
    if recipes.len() == 0 {
        Ok(Seq::empty())
    } else {
        match compile_all(recipes.drop_last(), map) {
            Err(error) => Err(error),
            Ok(compiled) => match recipes.last().compile(map) {
                Ok(more) => Ok(compiled + more),
                Err(error) => Err(error),
            },
        }
    }
}

/// The catalog that the declarations stand for: the categories with their
/// items in declaration order, then the recipes. A name that was never
/// registered ends the build.
pub open spec fn build(categories: Seq<CategoryView>, recipes: Seq<RecipeView>) -> Result<
    graph::CraftingView,
    ErrorView,
> {
    let registry = Registry::empty().with_categories(categories);
    match compile_all(recipes, registry.names) {
        Err(error) => Err(error),
        Ok(compiled) => Ok(registry.catalog.with_recipes(compiled)),
    }
}

/// A failure among the first `k` declarations is the failure of the whole.
pub proof fn lemma_compile_all_stops(recipes: Seq<RecipeView>, map: Map<Seq<char>, usize>, k: int)
    requires
        0 <= k <= recipes.len(),
        compile_all(recipes.take(k), map) is Err,
    ensures
        compile_all(recipes, map) == compile_all(recipes.take(k), map),
    decreases recipes.len() - k,
{
    if k < recipes.len() {
        assert(recipes.take(k + 1).drop_last() == recipes.take(k));
        lemma_compile_all_stops(recipes, map, k + 1);
    } else {
        assert(recipes.take(k) == recipes);
    }
}

/// The positions that names resolve to are below `count`, where every
/// name of `map` stands for an item below `count`.
pub proof fn lemma_resolved_names_in_bounds(
    names: Seq<Seq<char>>,
    map: Map<Seq<char>, usize>,
    count: int,
)
    requires
        forall|name: Seq<char>| #[trigger] map.contains_key(name) ==> map[name] < count,
        resolve_names(names, map) is Ok,
    ensures
        resolve_names(names, map)->Ok_0.len() == names.len(),
        forall|k: int|
            0 <= k < names.len() ==> (#[trigger] resolve_names(names, map)->Ok_0[k]) < count,
{
    let results = name_results(names, map);
    let positions = resolve_names(names, map)->Ok_0;
    lemma_collect_ok(results);
    assert forall|k: int| 0 <= k < names.len() implies (#[trigger] positions[k]) < count by {
        assert(results[k] == resolve_name(names[k], map));
        assert(map.contains_key(names[k]));
    }
}

/// A recipe that resolves names items below `count`, where every name of
/// `map` stands for one.
pub proof fn lemma_resolved_in_bounds(
    recipe: RegularView,
    map: Map<Seq<char>, usize>,
    count: int,
)
    requires
        forall|name: Seq<char>| #[trigger] map.contains_key(name) ==> map[name] < count,
        recipe.resolve(map) is Ok,
    ensures
        recipe.resolve(map)->Ok_0.in_bounds(count),
{
    let resolved = recipe.resolve(map)->Ok_0;
    let slots = input_results(recipe.input, map);
    lemma_collect_ok(slots);
    lemma_resolved_names_in_bounds(recipe.output, map, count);
    assert forall|slot: int| 0 <= slot < resolved.input.len() implies (#[trigger]
        resolved.input[slot]).in_bounds(count) by {
        assert(slots[slot] == recipe.input[slot].resolve(map));
        assert(slots[slot] == Ok::<graph::IngredientView, ErrorView>(resolved.input[slot]));
        match recipe.input[slot] {
            IngredientView::Unique(name) => {
                assert(map.contains_key(name));
                assert(resolved.input[slot].items() == seq![map[name]]);
            },
            IngredientView::Alternatives(names) => {
                lemma_resolved_names_in_bounds(names, map, count);
            },
        }
    }
}

/// Every recipe that a declaration compiles to names items below `count`,
/// where every name of `map` stands for one.
pub proof fn lemma_compiled_in_bounds(recipe: RecipeView, map: Map<Seq<char>, usize>, count: int)
    requires
        forall|name: Seq<char>| #[trigger] map.contains_key(name) ==> map[name] < count,
        recipe.compile(map) is Ok,
    ensures
        forall|k: int|
            0 <= k < recipe.compile(map)->Ok_0.len() ==> (#[trigger] recipe.compile(
                map,
            )->Ok_0[k]).in_bounds(count),
{
    let results = recipe_results(recipe.expand(), map);
    let compiled = recipe.compile(map)->Ok_0;
    lemma_collect_ok(results);
    assert forall|k: int| 0 <= k < compiled.len() implies (#[trigger] compiled[k]).in_bounds(
        count,
    ) by {
        assert(results[k] == recipe.expand()[k].resolve(map));
        assert(results[k] == Ok::<graph::RecipeView, ErrorView>(compiled[k]));
        lemma_resolved_in_bounds(recipe.expand()[k], map, count);
    }
}

/// Builds the catalog: each category with its items in declaration order,
/// then each recipe. Item names are recorded as the items are registered; a
/// recipe that names an item never registered ends the build.
pub fn process(items: Vec<Category>, recipes: Vec<Recipe>) -> (result: Result<Crafting, Error>)
    ensures
        match result {
            Ok(crafting) => build(category_views(items@), recipe_views(recipes@)) == Ok::<
                graph::CraftingView,
                ErrorView,
            >(crafting@) && crafting@.wf(),
            Err(error) => build(category_views(items@), recipe_views(recipes@)) == Err::<
                graph::CraftingView,
                ErrorView,
            >(error@),
        },
{
    let ghost categories = category_views(items@);
    let ghost declarations = recipe_views(recipes@);
    let mut crafting = Crafting::new();
    let mut item_map = ItemMap::new();
    for category in outer: items
        invariant
            category_views(outer.seq()) == categories,
            Registry::empty().with_categories(categories.take(outer.index())) == (Registry {
                catalog: crafting@,
                names: item_map@,
            }),
            (Registry { catalog: crafting@, names: item_map@ }).wf(),
    {
        let ghost before = Registry { catalog: crafting@, names: item_map@ };
        let ghost declared = category@.items;
        proof {
            assert(categories.take(outer.index() + 1).drop_last() == categories.take(outer.index()));
            assert(categories.take(outer.index() + 1).last() == category@);
        }
        let Category { name, items: members } = category;
        crafting.add_category(name);
        let ghost opened = Registry { catalog: crafting@, names: item_map@ };
        proof {
            assert(crafting@.items == before.catalog.items);
            assert(opened.with_items(declared.take(0)) == opened);
            assert(opened.names == before.names);
        }
        for item in inner: members
            invariant
                item_views(inner.seq()) == declared,
                opened.with_items(declared.take(inner.index())) == (Registry {
                    catalog: crafting@,
                    names: item_map@,
                }),
                (Registry { catalog: crafting@, names: item_map@ }).wf(),
                crafting@.categories.len() > 0,
        {
            let ghost registry = Registry { catalog: crafting@, names: item_map@ };
            proof {
                assert(declared.take(inner.index() + 1).drop_last() == declared.take(inner.index()));
                assert(declared.take(inner.index() + 1).last() == item@);
            }
            let name = item.name.clone();
            match crafting.add_item(item.convert()) {
                Ok(position) => {
                    item_map.insert(name, position);
                },
                Err(error) => {
                    return Err(error);
                },
            }
            proof {
                assert(crafting@.items.len() == registry.catalog.items.len() + 1);
                assert((Registry { catalog: crafting@, names: item_map@ }) == registry.with_item(
                    item@,
                ));
            }
        }
        proof {
            assert(declared.take(declared.len() as int) == declared);
        }
    }
    proof {
        assert(categories.take(categories.len() as int) == categories);
    }
    let ghost registry = Registry { catalog: crafting@, names: item_map@ };
    let ghost mut compiled: Seq<graph::RecipeView> = Seq::empty();
    for recipe in outer: recipes
        invariant
            recipe_views(outer.seq()) == declarations,
            categories == category_views(items@),
            declarations == recipe_views(recipes@),
            registry == Registry::empty().with_categories(categories),
            registry.names == item_map@,
            registry.wf(),
            compile_all(declarations.take(outer.index()), item_map@) == Ok::<
                Seq<graph::RecipeView>,
                ErrorView,
            >(compiled),
            crafting@ == registry.catalog.with_recipes(compiled),
            crafting@.wf(),
            crafting@.items.len() == registry.catalog.items.len(),
    {
        proof {
            assert(declarations.take(outer.index() + 1).drop_last() == declarations.take(
                outer.index(),
            ));
            assert(declarations.take(outer.index() + 1).last() == recipe@);
        }
        let group = match recipe.convert(&item_map) {
            Ok(group) => group,
            Err(error) => {
                proof {
                    lemma_compile_all_stops(declarations, item_map@, outer.index() + 1);
                }
                return Err(error);
            },
        };
        let ghost added = compiled_views(group@);
        proof {
            assert forall|name: Seq<char>| #[trigger]
                item_map@.contains_key(name) implies item_map@[name] < crafting@.items.len() by {
                assert(registry.names.contains_key(name));
            }
            lemma_compiled_in_bounds(recipe@, item_map@, crafting@.items.len() as int);
        }
        for compiled_recipe in inner: group
            invariant
                compiled_views(inner.seq()) == added,
                crafting@ == registry.catalog.with_recipes(compiled + added.take(inner.index())),
                crafting@.wf(),
                crafting@.items.len() == registry.catalog.items.len(),
                forall|k: int|
                    0 <= k < added.len() ==> (#[trigger] added[k]).in_bounds(
                        crafting@.items.len() as int,
                    ),
        {
            proof {
                let done = compiled + added.take(inner.index());
                let next = compiled + added.take(inner.index() + 1);
                assert(next.drop_last() == done);
                assert(next.last() == compiled_recipe@);
                assert(added[inner.index()] == compiled_recipe@);
            }
            crafting.add_recipe(compiled_recipe);
        }
        proof {
            assert(added.take(added.len() as int) == added);
            compiled = compiled + added;
        }
    }
    proof {
        assert(declarations.take(declarations.len() as int) == declarations);
    }
    Ok(crafting)
}

} // verus!
