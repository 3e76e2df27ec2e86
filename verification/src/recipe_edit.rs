//! Editing a recipe field by field: each field has a buffer, and is sent on its own.

use crate::model::Recipe;
use vstd::prelude::*;

verus! {

/// A field of a recipe that is edited in a buffer.
#[derive(Clone, Copy, Debug, PartialEq, Eq, Structural)]
pub enum RecipeField {
    Name,
    Author,
    Directions,
}

/// The recipe under edit, once it has come, and the buffers of its fields.
#[derive(Clone, Debug, PartialEq, Eq)]
pub struct RecipeEditWindowState {
    pub recipe: Option<Recipe>,
    pub name_buffer: String,
    pub author_buffer: String,
    pub directions_buffer: String,
}

/// The request that sets one field of a recipe.
#[derive(Clone, Debug, PartialEq, Eq)]
pub struct FieldUpdate {
    /// The identifier of the recipe.
    pub recipe: String,
    pub field: RecipeField,
    pub value: String,
}

impl RecipeEditWindowState {
    /// What the buffer of `field` holds.
    pub open spec fn buffer(self, field: RecipeField) -> String {
        match field {
            RecipeField::Name => self.name_buffer,
            RecipeField::Author => self.author_buffer,
            RecipeField::Directions => self.directions_buffer,
        }
    }

    /// No recipe has come and the buffers are empty.
    pub fn new() -> (state: RecipeEditWindowState)
        ensures
            state.recipe is None,
            state.name_buffer@.len() == 0,
            state.author_buffer@.len() == 0,
            state.directions_buffer@.len() == 0,
    {
        RecipeEditWindowState {
            recipe: None,
            name_buffer: String::new(),
            author_buffer: String::new(),
            directions_buffer: String::new(),
        }
    }

    /// The state once the server has sent `recipe`: the buffers hold its fields.
    pub fn refreshed(self, recipe: Recipe) -> (after: RecipeEditWindowState)
        ensures
            after == (RecipeEditWindowState {
                recipe: Some(recipe),
                name_buffer: recipe.name,
                author_buffer: recipe.author,
                directions_buffer: recipe.directions,
            }),
    {
        RecipeEditWindowState {
            name_buffer: recipe.name.clone(),
            author_buffer: recipe.author.clone(),
            directions_buffer: recipe.directions.clone(),
            recipe: Some(recipe),
        }
    }

    /// The state with `text` in the buffer of `field`.
    pub fn with_buffer(self, field: RecipeField, text: String) -> (after: RecipeEditWindowState)
        ensures
            after == match field {
                RecipeField::Name => RecipeEditWindowState { name_buffer: text, ..self },
                RecipeField::Author => RecipeEditWindowState { author_buffer: text, ..self },
                RecipeField::Directions => RecipeEditWindowState {
                    directions_buffer: text,
                    ..self
                },
            },
    {
        let mut state = self;
        match field {
            RecipeField::Name => {
                state.name_buffer = text;
            },
            RecipeField::Author => {
                state.author_buffer = text;
            },
            RecipeField::Directions => {
                state.directions_buffer = text;
            },
        }
        state
    }

    /// The request that sends the buffer of `field`; none as long as no recipe has come.
    pub fn field_update(&self, field: RecipeField) -> (request: Option<FieldUpdate>)
        ensures
            request == match self.recipe {
                Some(recipe) => Some(
                    FieldUpdate { recipe: recipe.id, field, value: self.buffer(field) },
                ),
                None => None,
            },
    {
        match &self.recipe {
            Some(recipe) => {
                let value = match field {
                    RecipeField::Name => self.name_buffer.clone(),
                    RecipeField::Author => self.author_buffer.clone(),
                    RecipeField::Directions => self.directions_buffer.clone(),
                };
                Some(FieldUpdate { recipe: recipe.id.clone(), field, value })
            },
            None => None,
        }
    }
}

} // verus!
