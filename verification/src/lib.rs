//! A catalog of craftable items and their recipes, held as flat arrays that
//! refer to one another by index, together with the compiler that builds the
//! catalog from authored declarations.

pub mod error;
pub mod graph;
pub mod laws;
pub mod lists;
pub mod model;
pub mod processor;
pub mod refs;
pub mod stored;

pub use error::{DecodeError, Error};
pub use graph::{Category, Crafting, Ingredient, Item, Recipe};
pub use lists::{IndexList, IngredientList};
pub use model::{update, Model, Msg};
pub use refs::{CategoryRef, ItemRef, RecipeRef};
