//! The records that the cookbook server hands out.

use vstd::prelude::*;

verus! {

/// An identifier as a specification value.
pub type Id = Seq<char>;

/// Identity and display name of a recipe.
#[derive(Debug, PartialEq, Eq, Hash)]
pub struct RecipeIndex {
    pub id: String,
    pub name: String,
}

/// Identity and display name of an ingredient.
#[derive(Debug, PartialEq, Eq, Hash)]
pub struct IngredientIndex {
    pub id: String,
    pub name: String,
}

/// Identity and display name of a label.
#[derive(Debug, PartialEq, Eq, Hash)]
pub struct LabelIndex {
    pub id: String,
    pub name: String,
}

/// An ingredient with the quantity a recipe asks for.
#[derive(Debug, PartialEq, Eq, Hash)]
pub struct Requirement {
    pub ingredient: IngredientIndex,
    pub quantity: String,
    pub optional: bool,
}

/// A reference from a recipe to another recipe that it uses.
#[derive(Debug, PartialEq, Eq, Hash)]
pub struct Dependency {
    pub recipe: RecipeIndex,
    pub quantity: String,
    pub optional: bool,
}

/// A recipe as the server describes it.
#[derive(Debug, PartialEq, Eq)]
pub struct Recipe {
    pub id: String,
    pub name: String,
    pub author: String,
    pub directions: String,
    pub tags: Vec<LabelIndex>,
    pub requirements: Vec<Requirement>,
    pub dependencies: Vec<Dependency>,
}

impl Clone for RecipeIndex {
    fn clone(&self) -> (res: Self)
        ensures
            res == *self,
    {
        RecipeIndex { id: self.id.clone(), name: self.name.clone() }
    }
}

impl Clone for IngredientIndex {
    fn clone(&self) -> (res: Self)
        ensures
            res == *self,
    {
        IngredientIndex { id: self.id.clone(), name: self.name.clone() }
    }
}

impl Clone for LabelIndex {
    fn clone(&self) -> (res: Self)
        ensures
            res == *self,
    {
        LabelIndex { id: self.id.clone(), name: self.name.clone() }
    }
}

impl Clone for Requirement {
    fn clone(&self) -> (res: Self)
        ensures
            res == *self,
    {
        Requirement {
            ingredient: self.ingredient.clone(),
            quantity: self.quantity.clone(),
            optional: self.optional,
        }
    }
}

impl Clone for Dependency {
    fn clone(&self) -> (res: Self)
        ensures
            res == *self,
    {
        Dependency {
            recipe: self.recipe.clone(),
            quantity: self.quantity.clone(),
            optional: self.optional,
        }
    }
}

/// A copy of a list of labels.
pub fn clone_labels(v: &Vec<LabelIndex>) -> (res: Vec<LabelIndex>)
    ensures
        res@ == v@,
{
    let mut out: Vec<LabelIndex> = Vec::new();
    let mut i: usize = 0;
    while i < v.len()
        invariant
            i <= v.len(),
            out@ == v@.take(i as int),
        decreases v.len() - i,
    {
        out.push(v[i].clone());
        i += 1;
    }
    out
}

/// A copy of a list of requirements.
pub fn clone_requirements(v: &Vec<Requirement>) -> (res: Vec<Requirement>)
    ensures
        res@ == v@,
{
    let mut out: Vec<Requirement> = Vec::new();
    let mut i: usize = 0;
    while i < v.len()
        invariant
            i <= v.len(),
            out@ == v@.take(i as int),
        decreases v.len() - i,
    {
        out.push(v[i].clone());
        i += 1;
    }
    out
}

/// A copy of a list of dependencies.
pub fn clone_dependencies(v: &Vec<Dependency>) -> (res: Vec<Dependency>)
    ensures
        res@ == v@,
{
    let mut out: Vec<Dependency> = Vec::new();
    let mut i: usize = 0;
    while i < v.len()
        invariant
            i <= v.len(),
            out@ == v@.take(i as int),
        decreases v.len() - i,
    {
        out.push(v[i].clone());
        i += 1;
    }
    out
}

/// A copy of a list of recipe references.
pub fn clone_recipe_indexes(v: &Vec<RecipeIndex>) -> (res: Vec<RecipeIndex>)
    ensures
        res@ == v@,
{
    let mut out: Vec<RecipeIndex> = Vec::new();
    let mut i: usize = 0;
    while i < v.len()
        invariant
            i <= v.len(),
            out@ == v@.take(i as int),
        decreases v.len() - i,
    {
        out.push(v[i].clone());
        i += 1;
    }
    out
}

/// A copy of a list of strings.
pub fn clone_strings(v: &Vec<String>) -> (res: Vec<String>)
    ensures
        res@ == v@,
{
    let mut out: Vec<String> = Vec::new();
    let mut i: usize = 0;
    while i < v.len()
        invariant
            i <= v.len(),
            out@ == v@.take(i as int),
        decreases v.len() - i,
    {
        out.push(v[i].clone());
        i += 1;
    }
    out
}

/// Two recipes that agree in every field, lists compared element by element.
pub open spec fn same_recipe(a: Recipe, b: Recipe) -> bool {
    &&& a.id == b.id
    &&& a.name == b.name
    &&& a.author == b.author
    &&& a.directions == b.directions
    &&& a.tags@ == b.tags@
    &&& a.requirements@ == b.requirements@
    &&& a.dependencies@ == b.dependencies@
}

impl Recipe {
    /// A recipe without identifier, text, labels, requirements or dependencies.
    pub fn empty() -> (res: Recipe)
        ensures
            res.id@.len() == 0,
            res.name@.len() == 0,
            res.author@.len() == 0,
            res.directions@.len() == 0,
            res.tags@.len() == 0,
            res.requirements@.len() == 0,
            res.dependencies@.len() == 0,
    {
        Recipe {
            id: String::new(),
            name: String::new(),
            author: String::new(),
            directions: String::new(),
            tags: Vec::new(),
            requirements: Vec::new(),
            dependencies: Vec::new(),
        }
    }
}

impl Clone for Recipe {
    fn clone(&self) -> (res: Self)
        ensures
            same_recipe(res, *self),
    {
        Recipe {
            id: self.id.clone(),
            name: self.name.clone(),
            author: self.author.clone(),
            directions: self.directions.clone(),
            tags: clone_labels(&self.tags),
            requirements: clone_requirements(&self.requirements),
            dependencies: clone_dependencies(&self.dependencies),
        }
    }
}

} // verus!
