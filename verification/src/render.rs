//! What the page of a recipe holds: its header, then one block of requirements and one
//! block of directions for each recipe shown.

use crate::model::{Id, LabelIndex, Recipe, Requirement, clone_labels};
use crate::order::{ElementView, RecipeElement, element_views, get_recipe_order, recipe_order};
use vstd::prelude::*;
use vstd::string::StringExecFns;

verus! {

/// The HTML that `pulldown_cmark` writes for a markdown text when no extension is
/// switched on.
pub uninterp spec fn markdown_html(source: Seq<char>) -> Seq<char>;

/// Calls `pulldown_cmark::html::push_html` on an empty string with the events of
/// `pulldown_cmark::Parser::new_ext(value, Options::empty())`. The contract only gives
/// the text that comes out a name: it is a function of `value` alone.
#[verifier::external_body]
fn parse_text(value: &str) -> (html: String)
    ensures
        html@ == markdown_html(value@),
{
    let parser = pulldown_cmark::Parser::new_ext(value, pulldown_cmark::Options::empty());
    let mut parsed_text = String::new();
    pulldown_cmark::html::push_html(&mut parsed_text, parser);
    parsed_text
}

/// One line of a block of requirements.
#[derive(Clone, Debug, PartialEq, Eq)]
pub struct RequirementRow {
    /// The identifier of the ingredient.
    pub key: String,
    pub ingredient: String,
    pub quantity: String,
}

/// The requirements of one recipe.
#[derive(Clone, Debug, PartialEq, Eq)]
pub struct RequirementBlock {
    /// The identifier of the recipe.
    pub key: String,
    pub subtitle: String,
    pub rows: Vec<RequirementRow>,
}

/// The directions of one recipe.
#[derive(Clone, Debug, PartialEq, Eq)]
pub struct DirectionBlock {
    pub subtitle: String,
    /// The directions as HTML.
    pub body: String,
}

/// The page of a recipe.
#[derive(Debug, PartialEq, Eq)]
pub struct RecipePage {
    pub name: String,
    pub author: String,
    pub tags: Vec<LabelIndex>,
    pub requirements: Vec<RequirementBlock>,
    pub directions: Vec<DirectionBlock>,
}

/// A `RequirementBlock` as a specification value.
pub struct RequirementBlockView {
    pub key: Id,
    pub subtitle: Seq<char>,
    pub rows: Seq<RequirementRow>,
}

impl View for RequirementBlock {
    type V = RequirementBlockView;

    open spec fn view(&self) -> RequirementBlockView {
        RequirementBlockView { key: self.key@, subtitle: self.subtitle@, rows: self.rows@ }
    }
}

/// A `DirectionBlock` as a specification value.
pub struct DirectionBlockView {
    pub subtitle: Seq<char>,
    pub body: Seq<char>,
}

impl View for DirectionBlock {
    type V = DirectionBlockView;

    open spec fn view(&self) -> DirectionBlockView {
        DirectionBlockView { subtitle: self.subtitle@, body: self.body@ }
    }
}

/// The recipe that an element shows.
pub open spec fn recipe_of(e: ElementView) -> Recipe {
    match e {
        ElementView::MainRecipe(r) => r,
        ElementView::DependencyRecipe(_, r) => r,
    }
}

/// The words that mark a recipe which the dish can do without.
pub open spec fn optional_mark() -> Seq<char> {
    " - Optional"@
}

/// The heading over the requirements of an element: the recipe's name, marked where the
/// dependency that brought it is optional.
pub open spec fn requirement_subtitle(e: ElementView) -> Seq<char> {
    match e {
        ElementView::MainRecipe(r) => r.name@,
        ElementView::DependencyRecipe(d, r) => if d.optional {
            r.name@ + optional_mark()
        } else {
            r.name@
        },
    }
}

/// The line shown for one requirement.
pub open spec fn row_of(q: Requirement) -> RequirementRow {
    RequirementRow { key: q.ingredient.id, ingredient: q.ingredient.name, quantity: q.quantity }
}

/// The block of requirements shown for an element.
pub open spec fn requirement_block(e: ElementView) -> RequirementBlockView {
    RequirementBlockView {
        key: recipe_of(e).id@,
        subtitle: requirement_subtitle(e),
        rows: recipe_of(e).requirements@.map_values(|q: Requirement| row_of(q)),
    }
}

/// The block of directions shown for an element.
pub open spec fn direction_block(e: ElementView) -> DirectionBlockView {
    DirectionBlockView {
        subtitle: recipe_of(e).name@,
        body: markdown_html(recipe_of(e).directions@),
    }
}

/// The requirements of one element, one row for each, under the recipe's name.
pub fn render_requirements(element: &RecipeElement) -> (block: RequirementBlock)
    ensures
        block@ == requirement_block(element@),
{
    let recipe: &Recipe = match element {
        RecipeElement::MainRecipe(recipe) => recipe,
        RecipeElement::DependencyRecipe(_, recipe) => recipe,
    };
    let mut rows: Vec<RequirementRow> = Vec::new();
    let mut i: usize = 0;
    while i < recipe.requirements.len()
        invariant
            i <= recipe.requirements.len(),
            rows@ == recipe.requirements@.take(i as int).map_values(|q: Requirement| row_of(q)),
        decreases recipe.requirements.len() - i,
    {
        let q = &recipe.requirements[i];
        let ghost before = rows@;
        rows.push(
            RequirementRow {
                key: q.ingredient.id.clone(),
                ingredient: q.ingredient.name.clone(),
                quantity: q.quantity.clone(),
            },
        );
        assert(rows@ =~= recipe.requirements@.take(i + 1).map_values(
            |q: Requirement| row_of(q),
        ));
        i += 1;
    }
    assert(recipe.requirements@.take(i as int) =~= recipe.requirements@);
    let mut subtitle = recipe.name.clone();
    match element {
        RecipeElement::MainRecipe(_) => {},
        RecipeElement::DependencyRecipe(dependency, _) => {
            if dependency.optional {
                subtitle.append(" - Optional");
            }
        },
    }
    RequirementBlock { key: recipe.id.clone(), subtitle, rows }
}

/// The block of directions of the recipe `recipe`, given its directions as HTML.
pub fn directions_with(recipe: &Recipe, html: String) -> (block: DirectionBlock)
    ensures
        block@ == (DirectionBlockView { subtitle: recipe.name@, body: html@ }),
{
    DirectionBlock { subtitle: recipe.name.clone(), body: html }
}

/// The directions of one element as HTML, under the recipe's name.
pub fn render_directions(element: &RecipeElement) -> (block: DirectionBlock)
    ensures
        block@ == direction_block(element@),
{
    let recipe: &Recipe = match element {
        RecipeElement::MainRecipe(recipe) => recipe,
        RecipeElement::DependencyRecipe(_, recipe) => recipe,
    };
    directions_with(recipe, parse_text(recipe.directions.as_str()))
}

/// The blocks of a list of requirement blocks as specification values.
pub open spec fn requirement_views(v: Seq<RequirementBlock>) -> Seq<RequirementBlockView> {
    v.map_values(|b: RequirementBlock| b@)
}

/// The blocks of a list of direction blocks as specification values.
pub open spec fn direction_views(v: Seq<DirectionBlock>) -> Seq<DirectionBlockView> {
    v.map_values(|b: DirectionBlock| b@)
}

/// The page for a graph whose first recipe is the main one: its name, author and tags,
/// then the requirements and the directions of every recipe shown, in the order of
/// `recipe_order`. There is no page where there is no main recipe.
pub fn render(g: &Vec<Recipe>) -> (page: Option<RecipePage>)
    ensures
        page is Some <==> g.len() > 0,
        page matches Some(p) ==> {
            &&& p.name == g[0].name
            &&& p.author == g[0].author
            &&& p.tags@ == g[0].tags@
            &&& requirement_views(p.requirements@) == recipe_order(g@).map_values(
                |e: ElementView| requirement_block(e),
            )
            &&& direction_views(p.directions@) == recipe_order(g@).map_values(
                |e: ElementView| direction_block(e),
            )
        },
{
    if g.len() == 0 {
        return None;
    }
    let main_recipe = &g[0];
    let ordered_items = get_recipe_order(g);
    let mut requirements: Vec<RequirementBlock> = Vec::new();
    let mut directions: Vec<DirectionBlock> = Vec::new();
    let mut i: usize = 0;
    while i < ordered_items.len()
        invariant
            i <= ordered_items.len(),
            element_views(ordered_items@) == recipe_order(g@),
            requirements.len() == i,
            directions.len() == i,
            forall|k: int|
                0 <= k < i ==> (#[trigger] requirements@[k])@ == requirement_block(
                    recipe_order(g@)[k],
                ),
            forall|k: int|
                0 <= k < i ==> (#[trigger] directions@[k])@ == direction_block(
                    recipe_order(g@)[k],
                ),
        decreases ordered_items.len() - i,
    {
        assert(element_views(ordered_items@)[i as int] == ordered_items@[i as int]@);
        requirements.push(render_requirements(&ordered_items[i]));
        directions.push(render_directions(&ordered_items[i]));
        i += 1;
    }
    assert(element_views(ordered_items@).len() == ordered_items.len());
    assert(requirement_views(requirements@) =~= recipe_order(g@).map_values(
        |e: ElementView| requirement_block(e),
    ));
    assert(direction_views(directions@) =~= recipe_order(g@).map_values(
        |e: ElementView| direction_block(e),
    ));
    Some(
        RecipePage {
            name: main_recipe.name.clone(),
            author: main_recipe.author.clone(),
            tags: clone_labels(&main_recipe.tags),
            requirements,
            directions,
        },
    )
}

/// The title of the window that shows a graph whose first recipe is the main one: the
/// recipe's name, or that it is loading, and the name of the application.
pub fn window_title(g: &Vec<Recipe>) -> (title: String)
    ensures
        title@ == (if g.len() > 0 {
            g[0].name@
        } else {
            "Loading"@
        }) + " - spoon"@,
{
    let mut title = if g.len() > 0 {
        g[0].name.clone()
    } else {
        String::from_str("Loading")
    };
    title.append(" - spoon");
    title
}

} // verus!
