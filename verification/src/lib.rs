//! Modular recipes: recipe files that say how to make a thing out of
//! other things, repositories of them, and the plans that follow from them.
pub mod text;
pub mod names;
pub mod quantity;
pub mod recipe_id;
pub mod recipe;
pub mod repo;
pub mod repos;
pub mod graph;
pub mod reach;
pub mod build_plan;
pub mod toml_recipe;

pub use recipe::Recipe;
pub use recipe_id::{RecipeId, RecipeIdParseError};
pub use repo::{Repo, RepoLoadError};
pub use repos::Repos;
