//! Recipe graphs for a cookbook front end: the closure of a recipe's
//! dependencies, the order in which its parts are shown, and the edits
//! that turn one version of a recipe into another.

pub mod closure;
pub mod edit;
pub mod graph;
pub mod ingredient;
pub mod items;
pub mod list;
pub mod model;
pub mod order;
pub mod query;
pub mod reach;
pub mod recipe_edit;
pub mod render;
pub mod resolver;
pub mod sorting;
pub mod status;
pub mod text;
