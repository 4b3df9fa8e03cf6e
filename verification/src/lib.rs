//! A recipe catalog: create, look up and search recipes with ingredient
//! lists and optional image assets.

pub mod handlers;
pub mod ids;
pub mod images;
pub mod model;
pub mod search;
pub mod store;

pub use model::Recipe;
pub use model::Ingredient;
pub use model::NewIngredient;
