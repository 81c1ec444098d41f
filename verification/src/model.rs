//! The state of a reader of the catalog: nothing until the catalog has
//! arrived, the catalog from then on.

use crate::graph::{Crafting, CraftingView};
use vstd::prelude::*;

verus! {

/// What the reader holds.
#[derive(Debug)]
pub struct Model {
    crafting: Option<Crafting>,
}

impl View for Model {
    type V = Option<CraftingView>;

    closed spec fn view(&self) -> Option<CraftingView> {
        match self.crafting {
            Some(crafting) => Some(crafting@),
            None => None,
        }
    }
}

impl Model {
    /// The state before the catalog has arrived.
    pub fn new() -> (model: Self)
        ensures
            model@ is None,
    {
        Model { crafting: None }
    }

    /// The catalog, once it has arrived.
    pub fn crafting(&self) -> (crafting: Option<&Crafting>)
        ensures
            match crafting {
                Some(crafting) => self@ == Some(crafting@),
                None => self@ is None,
            },
    {
        self.crafting.as_ref()
    }
}

/// What can happen to the reader.
#[derive(Debug)]
pub enum Msg {
    /// The catalog has arrived.
    DataLoaded(Crafting),
}

/// Takes the catalog that has arrived into the state. It arrives once.
pub fn update(msg: Msg, model: &mut Model)
    requires
        old(model)@ is None,
    ensures
        msg matches Msg::DataLoaded(crafting) && final(model)@ == Some(crafting@),
{
    match msg {
        Msg::DataLoaded(crafting) => {
            model.crafting = Some(crafting);
        },
    }
}

impl Default for Model {
    /// The state before the catalog has arrived.
    fn default() -> (model: Self)
        ensures
            model@ is None,
    {
        Model::new()
    }
}

} // verus!
