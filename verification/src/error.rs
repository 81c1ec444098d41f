//! Why a build is abandoned.

use vstd::prelude::*;

verus! {

/// A failure that ends the build. Nothing of the catalog is kept.
#[derive(Debug)]
pub enum Error {
    /// An item was registered before any category existed.
    UnanchoredItem,
    /// A recipe names an item that was never registered.
    UnknownItemName(String),
}

/// What an [`Error`] stands for.
pub enum ErrorView {
    UnanchoredItem,
    UnknownItemName(Seq<char>),
}

impl View for Error {
    type V = ErrorView;

    open spec fn view(&self) -> ErrorView {
        match *self {
            Error::UnanchoredItem => ErrorView::UnanchoredItem,
            Error::UnknownItemName(name) => ErrorView::UnknownItemName(name@),
        }
    }
}

impl Error {
    /// The failure in words.
    pub fn message(&self) -> (message: String)
        ensures
            self@ matches ErrorView::UnknownItemName(name) ==> message@ == "unknown item name: "@
                + name,
            self@ is UnanchoredItem ==> message@ == "item registered before any category"@,
    {
        match self {
            Error::UnanchoredItem => "item registered before any category".to_owned(),
            Error::UnknownItemName(name) => String::from_str("unknown item name: ").concat(
                name.as_str(),
            ),
        }
    }
}

/// Why stored parts do not make a catalog.
#[derive(Debug, Clone, Copy)]
pub enum DecodeError {
    /// The categories' ranges do not tile the items.
    Categories,
    /// A recipe names an item that does not exist.
    Recipes,
    /// An item's lists are not the sorted lists of the recipes that produce
    /// and consume it.
    CrossReferences,
}

impl DecodeError {
    /// The failure in words.
    pub fn message(&self) -> (message: &'static str)
        ensures
            message@ == match *self {
                DecodeError::Categories => "the categories do not tile the items"@,
                DecodeError::Recipes => "a recipe names an item that does not exist"@,
                DecodeError::CrossReferences => "an item's recipe lists do not match the recipes"@,
            },
    {
        match self {
            DecodeError::Categories => "the categories do not tile the items",
            DecodeError::Recipes => "a recipe names an item that does not exist",
            DecodeError::CrossReferences => "an item's recipe lists do not match the recipes",
        }
    }
}

} // verus!
