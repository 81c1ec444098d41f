//! Short index lists. The lists of the catalog are mostly one or two entries
//! long, so they are kept in `smallvec::SmallVec`, which stores a few items
//! inline. Its methods are reached through the trusted functions of this
//! module; everything else is verified against their contracts.

use crate::graph::{Ingredient, IngredientView};
use smallvec::SmallVec;
use vstd::prelude::*;

verus! {

/// A list of indices into one of the catalog's arrays.
///
/// Trusted: the list is a `SmallVec<[usize; 2]>` that the verifier does not
/// look into. What it holds is [`index_list_items`].
#[verifier::external_body]
#[derive(Debug)]
pub struct IndexList {
    inner: SmallVec<[usize; 2]>,
}

/// The indices that a list holds, first to last.
pub uninterp spec fn index_list_items(list: IndexList) -> Seq<usize>;

impl View for IndexList {
    type V = Seq<usize>;

    open spec fn view(&self) -> Seq<usize> {
        index_list_items(*self)
    }
}

/// Trusted: `SmallVec::new` returns a vector of length zero.
#[verifier::external_body]
fn index_list_new() -> (list: IndexList)
    ensures
        index_list_items(list) == Seq::<usize>::empty(),
{
    IndexList { inner: SmallVec::new() }
}

/// Trusted: `SmallVec::push` appends one item and leaves the others as they
/// were. Like `Vec::push`, it ends the program where no memory is left.
#[verifier::external_body]
fn index_list_push(list: &mut IndexList, index: usize)
    ensures
        index_list_items(*final(list)) == index_list_items(*old(list)).push(index),
{
    list.inner.push(index)
}

/// Trusted: `SmallVec::len` is the number of items held.
#[verifier::external_body]
fn index_list_len(list: &IndexList) -> (len: usize)
    ensures
        len == index_list_items(*list).len(),
{
    list.inner.len()
}

/// Trusted: indexing a `SmallVec` below its length gives the item at that
/// position.
#[verifier::external_body]
fn index_list_get(list: &IndexList, position: usize) -> (index: usize)
    requires
        position < index_list_items(*list).len(),
    ensures
        index == index_list_items(*list)[position as int],
{
    list.inner[position]
}

impl IndexList {
    /// An empty list.
    pub fn new() -> (list: Self)
        ensures
            list@ == Seq::<usize>::empty(),
    {
        index_list_new()
    }

    /// Appends `index` to the list.
    pub fn push(&mut self, index: usize)
        ensures
            final(self)@ == old(self)@.push(index),
    {
        index_list_push(self, index)
    }

    /// The number of indices in the list.
    pub fn len(&self) -> (len: usize)
        ensures
            len == self@.len(),
    {
        index_list_len(self)
    }

    /// The index at `position`.
    pub fn get(&self, position: usize) -> (index: usize)
        requires
            position < self@.len(),
        ensures
            index == self@[position as int],
    {
        index_list_get(self, position)
    }

    /// Whether `index` is in the list.
    pub fn contains(&self, index: usize) -> (found: bool)
        ensures
            found == self@.contains(index),
    {
        let mut i: usize = 0;
        while i < self.len()
            invariant
                i <= self@.len(),
                forall|j: int| 0 <= j < i ==> self@[j] != index,
            decreases self@.len() - i,
        {
            if self.get(i) == index {
                return true;
            }
            i += 1;
        }
        false
    }

    /// Whether each index is larger than the one before it.
    pub fn is_increasing(&self) -> (increasing: bool)
        ensures
            increasing == crate::graph::increasing(self@),
    {
        let mut i: usize = 1;
        while i < self.len()
            invariant
                1 <= i,
                forall|a: int, b: int| 0 <= a < b < i && b < self@.len() ==> self@[a] < self@[b],
            decreases self@.len() - i,
        {
            if self.get(i - 1) >= self.get(i) {
                return false;
            }
            assert forall|a: int, b: int| 0 <= a < b < i + 1 && b < self@.len() implies self@[a]
                < self@[b] by {
                if b == i && a < i - 1 {
                    assert(self@[a] < self@[i - 1]);
                }
            }
            i += 1;
        }
        true
    }

    /// The list that holds the items of `indices`, in their order.
    pub fn from_vec(indices: &Vec<usize>) -> (list: Self)
        ensures
            list@ == indices@,
    {
        let mut list = IndexList::new();
        let mut i: usize = 0;
        while i < indices.len()
            invariant
                i <= indices.len(),
                list@ == indices@.take(i as int),
            decreases indices.len() - i,
        {
            list.push(indices[i]);
            assert(indices@.take(i as int).push(indices@[i as int]) == indices@.take(i + 1));
            i += 1;
        }
        list
    }

    /// The items of the list as a vector.
    pub fn to_vec(&self) -> (indices: Vec<usize>)
        ensures
            indices@ == self@,
    {
        let mut indices: Vec<usize> = Vec::new();
        let mut i: usize = 0;
        while i < self.len()
            invariant
                i <= self@.len(),
                indices@ == self@.take(i as int),
            decreases self@.len() - i,
        {
            indices.push(self.get(i));
            assert(self@.take(i as int).push(self@[i as int]) == self@.take(i + 1));
            i += 1;
        }
        indices
    }
}

/// The input slots of one recipe, in their order.
///
/// Trusted: the list is a `SmallVec<[Ingredient; 4]>` that the verifier does
/// not look into. What it holds is [`ingredient_list_items`].
#[verifier::external_body]
#[derive(Debug)]
pub struct IngredientList {
    inner: SmallVec<[Ingredient; 4]>,
}

/// The ingredients that a list holds, first to last.
pub uninterp spec fn ingredient_list_items(list: IngredientList) -> Seq<Ingredient>;

impl View for IngredientList {
    type V = Seq<IngredientView>;

    open spec fn view(&self) -> Seq<IngredientView> {
        ingredient_list_items(*self).map_values(|ingredient: Ingredient| ingredient@)
    }
}

/// Trusted: `SmallVec::new` returns a vector of length zero.
#[verifier::external_body]
fn ingredient_list_new() -> (list: IngredientList)
    ensures
        ingredient_list_items(list) == Seq::<Ingredient>::empty(),
{
    IngredientList { inner: SmallVec::new() }
}

/// Trusted: `SmallVec::push` appends one item and leaves the others as they
/// were. Like `Vec::push`, it ends the program where no memory is left.
#[verifier::external_body]
fn ingredient_list_push(list: &mut IngredientList, ingredient: Ingredient)
    ensures
        ingredient_list_items(*final(list)) == ingredient_list_items(*old(list)).push(ingredient),
{
    list.inner.push(ingredient)
}

/// Trusted: `SmallVec::len` is the number of items held.
#[verifier::external_body]
fn ingredient_list_len(list: &IngredientList) -> (len: usize)
    ensures
        len == ingredient_list_items(*list).len(),
{
    list.inner.len()
}

/// Trusted: indexing a `SmallVec` below its length gives the item at that
/// position.
#[verifier::external_body]
fn ingredient_list_get(list: &IngredientList, position: usize) -> (ingredient: &Ingredient)
    requires
        position < ingredient_list_items(*list).len(),
    ensures
        *ingredient == ingredient_list_items(*list)[position as int],
{
    &list.inner[position]
}

impl IngredientList {
    /// An empty list.
    pub fn new() -> (list: Self)
        ensures
            list@ == Seq::<IngredientView>::empty(),
    {
        ingredient_list_new()
    }

    /// Appends `ingredient` to the list.
    pub fn push(&mut self, ingredient: Ingredient)
        ensures
            final(self)@ == old(self)@.push(ingredient@),
    {
        ingredient_list_push(self, ingredient)
    }

    /// The number of ingredients in the list.
    pub fn len(&self) -> (len: usize)
        ensures
            len == self@.len(),
    {
        ingredient_list_len(self)
    }

    /// The ingredient at `position`.
    pub fn get(&self, position: usize) -> (ingredient: &Ingredient)
        requires
            position < self@.len(),
        ensures
            ingredient@ == self@[position as int],
    {
        ingredient_list_get(self, position)
    }
}

} // verus!
