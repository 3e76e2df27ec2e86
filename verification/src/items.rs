//! Adding a requirement or a dependency to a recipe under edit: the form, and what it
//! offers to choose from.

use crate::graph::{contains_id, first_index, ids};
use crate::model::{Id, IngredientIndex, RecipeIndex};
use crate::sorting::{arranged, sort_by_keys};
use crate::text::{transliterate, unidecoded};
use vstd::prelude::*;

verus! {

/// Whether a form is folded away or open.
#[derive(Clone, Copy, Debug, PartialEq, Eq, Structural)]
pub enum AddItemMode {
    Collapsed,
    Open,
}

/// The form that adds a requirement.
#[derive(Clone, Debug, PartialEq, Eq)]
pub struct RequirementAddItemState {
    pub mode: AddItemMode,
    pub selected_ingredient: Option<IngredientIndex>,
    pub quantity_buffer: String,
    pub optional: bool,
}

/// What happens to the form that adds a requirement.
#[derive(Clone, Debug, PartialEq, Eq)]
pub enum RequirementAddItemAction {
    SetIngredient(IngredientIndex),
    SetQuantity(String),
    ToggleOptional,
    Close,
    Open,
}

impl RequirementAddItemState {
    /// The form as it first stands: folded away and empty.
    pub fn new() -> (state: RequirementAddItemState)
        ensures
            state.mode == AddItemMode::Collapsed,
            state.selected_ingredient is None,
            state.quantity_buffer@.len() == 0,
            !state.optional,
    {
        RequirementAddItemState {
            mode: AddItemMode::Collapsed,
            selected_ingredient: None,
            quantity_buffer: String::new(),
            optional: false,
        }
    }

    /// The form once `action` has happened. Closing it empties it.
    pub fn reduce(self, action: RequirementAddItemAction) -> (after: RequirementAddItemState)
        ensures
            match action {
                RequirementAddItemAction::SetIngredient(ing) => after == (RequirementAddItemState {
                    selected_ingredient: Some(ing),
                    ..self
                }),
                RequirementAddItemAction::SetQuantity(qt) => after == (RequirementAddItemState {
                    quantity_buffer: qt,
                    ..self
                }),
                RequirementAddItemAction::ToggleOptional => after == (RequirementAddItemState {
                    optional: !self.optional,
                    ..self
                }),
                RequirementAddItemAction::Close => {
                    &&& after.mode == AddItemMode::Collapsed
                    &&& after.selected_ingredient is None
                    &&& after.quantity_buffer@.len() == 0
                    &&& !after.optional
                },
                RequirementAddItemAction::Open => after == (RequirementAddItemState {
                    mode: AddItemMode::Open,
                    ..self
                }),
            },
    {
        let mut state = self;
        match action {
            RequirementAddItemAction::SetIngredient(ing) => {
                state.selected_ingredient = Some(ing);
            },
            RequirementAddItemAction::SetQuantity(qt) => {
                state.quantity_buffer = qt;
            },
            RequirementAddItemAction::ToggleOptional => {
                state.optional = !state.optional;
            },
            RequirementAddItemAction::Close => {
                state = RequirementAddItemState::new();
            },
            RequirementAddItemAction::Open => {
                state.mode = AddItemMode::Open;
            },
        }
        state
    }
}

/// The form that adds a dependency.
#[derive(Clone, Debug, PartialEq, Eq)]
pub struct DependencyAddItemState {
    pub mode: AddItemMode,
    pub selected_recipe: Option<RecipeIndex>,
    pub quantity_buffer: String,
    pub optional: bool,
}

/// What happens to the form that adds a dependency.
#[derive(Clone, Debug, PartialEq, Eq)]
pub enum DependencyAddItemAction {
    SetRecipe(RecipeIndex),
    SetQuantity(String),
    ToggleOptional,
    Close,
    Open,
}

impl DependencyAddItemState {
    /// The form as it first stands: folded away and empty.
    pub fn new() -> (state: DependencyAddItemState)
        ensures
            state.mode == AddItemMode::Collapsed,
            state.selected_recipe is None,
            state.quantity_buffer@.len() == 0,
            !state.optional,
    {
        DependencyAddItemState {
            mode: AddItemMode::Collapsed,
            selected_recipe: None,
            quantity_buffer: String::new(),
            optional: false,
        }
    }

    /// The form once `action` has happened. Closing it empties it.
    pub fn reduce(self, action: DependencyAddItemAction) -> (after: DependencyAddItemState)
        ensures
            match action {
                DependencyAddItemAction::SetRecipe(recipe) => after == (DependencyAddItemState {
                    selected_recipe: Some(recipe),
                    ..self
                }),
                DependencyAddItemAction::SetQuantity(qt) => after == (DependencyAddItemState {
                    quantity_buffer: qt,
                    ..self
                }),
                DependencyAddItemAction::ToggleOptional => after == (DependencyAddItemState {
                    optional: !self.optional,
                    ..self
                }),
                DependencyAddItemAction::Close => {
                    &&& after.mode == AddItemMode::Collapsed
                    &&& after.selected_recipe is None
                    &&& after.quantity_buffer@.len() == 0
                    &&& !after.optional
                },
                DependencyAddItemAction::Open => after == (DependencyAddItemState {
                    mode: AddItemMode::Open,
                    ..self
                }),
            },
    {
        let mut state = self;
        match action {
            DependencyAddItemAction::SetRecipe(recipe) => {
                state.selected_recipe = Some(recipe);
            },
            DependencyAddItemAction::SetQuantity(qt) => {
                state.quantity_buffer = qt;
            },
            DependencyAddItemAction::ToggleOptional => {
                state.optional = !state.optional;
            },
            DependencyAddItemAction::Close => {
                state = DependencyAddItemState::new();
            },
            DependencyAddItemAction::Open => {
                state.mode = AddItemMode::Open;
            },
        }
        state
    }
}

/// The ingredients of `cache` that `blacklist` does not name.
pub open spec fn free_ingredients(cache: Seq<IngredientIndex>, blacklist: Seq<Id>) -> Seq<
    IngredientIndex,
> {
    cache.filter(|x: IngredientIndex| !blacklist.contains(x.id@))
}

/// The names by which ingredients are ordered: without accents.
pub open spec fn ingredient_keys(v: Seq<IngredientIndex>) -> Seq<Seq<char>> {
    v.map_values(|x: IngredientIndex| unidecoded(x.name@))
}

/// The ingredients in the order of their names, accents set aside; ingredients whose
/// names are then the same keep their order.
pub fn sort_ingredients<'a>(cache: &'a Vec<IngredientIndex>) -> (out: Vec<&'a IngredientIndex>)
    ensures
        arranged(cache@, ingredient_keys(cache@), out@.unref()),
{
    let mut keys: Vec<String> = Vec::new();
    let mut i: usize = 0;
    while i < cache.len()
        invariant
            i <= cache.len(),
            keys.len() == i,
            forall|k: int| 0 <= k < i ==> (#[trigger] keys@[k])@ == unidecoded(cache@[k].name@),
        decreases cache.len() - i,
    {
        keys.push(transliterate(cache[i].name.as_str()));
        i += 1;
    }
    assert(ids(keys@) =~= ingredient_keys(cache@));
    sort_by_keys(cache, &keys)
}

/// The ingredients offered for a new requirement: those of `cache` that `blacklist`
/// does not name, in the order of their names, accents set aside.
pub fn ingredient_options(cache: &Vec<IngredientIndex>, blacklist: &Vec<String>) -> (out: Vec<
    IngredientIndex,
>)
    ensures
        arranged(
            free_ingredients(cache@, ids(blacklist@)),
            ingredient_keys(free_ingredients(cache@, ids(blacklist@))),
            out@,
        ),
{
    let ghost pred = |x: IngredientIndex| !ids(blacklist@).contains(x.id@);
    let mut free: Vec<IngredientIndex> = Vec::new();
    let mut i: usize = 0;
    assert(cache@.take(0).filter(pred) =~= Seq::<IngredientIndex>::empty()) by {
        reveal(Seq::filter);
    }
    while i < cache.len()
        invariant
            i <= cache.len(),
            pred == |x: IngredientIndex| !ids(blacklist@).contains(x.id@),
            free@ == cache@.take(i as int).filter(pred),
        decreases cache.len() - i,
    {
        proof {
            cache@.lemma_take_succ_push(i as int);
            cache@.take(i as int).lemma_filter_push(cache@[i as int], pred);
        }
        if !contains_id(blacklist, &cache[i].id) {
            free.push(cache[i].clone());
        }
        i += 1;
    }
    assert(cache@.take(i as int) =~= cache@);
    let sorted = sort_ingredients(&free);
    let mut out: Vec<IngredientIndex> = Vec::new();
    let mut k: usize = 0;
    while k < sorted.len()
        invariant
            k <= sorted.len(),
            out.len() == k,
            forall|m: int| 0 <= m < k ==> #[trigger] out@[m] == *sorted@[m],
        decreases sorted.len() - k,
    {
        out.push(sorted[k].clone());
        k += 1;
    }
    assert(out@ =~= sorted@.unref());
    out
}

/// The recipes of `cache` that `blacklist` does not name.
pub open spec fn free_recipes(cache: Seq<RecipeIndex>, blacklist: Seq<Id>) -> Seq<RecipeIndex> {
    cache.filter(|x: RecipeIndex| !blacklist.contains(x.id@))
}

/// The names by which the recipes offered are ordered: without accents.
pub open spec fn plain_recipe_keys(v: Seq<RecipeIndex>) -> Seq<Seq<char>> {
    v.map_values(|x: RecipeIndex| unidecoded(x.name@))
}

/// The recipes offered for a new dependency: those of `cache` that `blacklist` does not
/// name, in the order of their names, accents set aside.
pub fn recipe_options(cache: &Vec<RecipeIndex>, blacklist: &Vec<String>) -> (out: Vec<RecipeIndex>)
    ensures
        arranged(
            free_recipes(cache@, ids(blacklist@)),
            plain_recipe_keys(free_recipes(cache@, ids(blacklist@))),
            out@,
        ),
{
    let ghost pred = |x: RecipeIndex| !ids(blacklist@).contains(x.id@);
    let mut free: Vec<RecipeIndex> = Vec::new();
    let mut i: usize = 0;
    assert(cache@.take(0).filter(pred) =~= Seq::<RecipeIndex>::empty()) by {
        reveal(Seq::filter);
    }
    while i < cache.len()
        invariant
            i <= cache.len(),
            pred == |x: RecipeIndex| !ids(blacklist@).contains(x.id@),
            free@ == cache@.take(i as int).filter(pred),
        decreases cache.len() - i,
    {
        proof {
            cache@.lemma_take_succ_push(i as int);
            cache@.take(i as int).lemma_filter_push(cache@[i as int], pred);
        }
        if !contains_id(blacklist, &cache[i].id) {
            free.push(cache[i].clone());
        }
        i += 1;
    }
    assert(cache@.take(i as int) =~= cache@);
    let mut keys: Vec<String> = Vec::new();
    let mut j: usize = 0;
    while j < free.len()
        invariant
            j <= free.len(),
            keys.len() == j,
            forall|k: int| 0 <= k < j ==> (#[trigger] keys@[k])@ == unidecoded(free@[k].name@),
        decreases free.len() - j,
    {
        keys.push(transliterate(free[j].name.as_str()));
        j += 1;
    }
    assert(ids(keys@) =~= plain_recipe_keys(free@));
    let sorted = sort_by_keys(&free, &keys);
    let mut out: Vec<RecipeIndex> = Vec::new();
    let mut k: usize = 0;
    while k < sorted.len()
        invariant
            k <= sorted.len(),
            out.len() == k,
            forall|m: int| 0 <= m < k ==> #[trigger] out@[m] == *sorted@[m],
        decreases sorted.len() - k,
    {
        out.push(sorted[k].clone());
        k += 1;
    }
    assert(out@ =~= sorted@.unref());
    out
}

/// The identifiers of a list of ingredients, in order.
pub open spec fn ingredient_id_list(v: Seq<IngredientIndex>) -> Seq<Id> {
    v.map_values(|x: IngredientIndex| x.id@)
}

/// The identifiers of a list of recipes, in order.
pub open spec fn recipe_id_list(v: Seq<RecipeIndex>) -> Seq<Id> {
    v.map_values(|x: RecipeIndex| x.id@)
}

/// The first ingredient of `cache` with the identifier `id`.
pub fn find_ingredient<'a>(cache: &'a Vec<IngredientIndex>, id: &String) -> (found: Option<
    &'a IngredientIndex,
>)
    ensures
        found is Some <==> ingredient_id_list(cache@).contains(id@),
        found matches Some(x) ==> *x == cache@[first_index(ingredient_id_list(cache@), id@)],
{
    let mut i: usize = 0;
    while i < cache.len()
        invariant
            i <= cache.len(),
            forall|k: int| 0 <= k < i ==> ingredient_id_list(cache@)[k] != id@,
        decreases cache.len() - i,
    {
        if cache[i].id == *id {
            proof {
                let s = ingredient_id_list(cache@);
                assert(s[i as int] == id@);
                let f = first_index(s, id@);
                assert(0 <= f < s.len() && s[f] == id@ && forall|k: int|
                    0 <= k < f ==> s[k] != id@);
                assert(f == i);
            }
            return Some(&cache[i]);
        }
        i += 1;
    }
    proof {
        let s = ingredient_id_list(cache@);
        if s.contains(id@) {
            let k = choose|k: int| 0 <= k < s.len() && s[k] == id@;
            assert(false);
        }
    }
    None
}

/// The first recipe of `cache` with the identifier `id`.
pub fn find_recipe_index<'a>(cache: &'a Vec<RecipeIndex>, id: &String) -> (found: Option<
    &'a RecipeIndex,
>)
    ensures
        found is Some <==> recipe_id_list(cache@).contains(id@),
        found matches Some(x) ==> *x == cache@[first_index(recipe_id_list(cache@), id@)],
{
    let mut i: usize = 0;
    while i < cache.len()
        invariant
            i <= cache.len(),
            forall|k: int| 0 <= k < i ==> recipe_id_list(cache@)[k] != id@,
        decreases cache.len() - i,
    {
        if cache[i].id == *id {
            proof {
                let s = recipe_id_list(cache@);
                assert(s[i as int] == id@);
                let f = first_index(s, id@);
                assert(0 <= f < s.len() && s[f] == id@ && forall|k: int|
                    0 <= k < f ==> s[k] != id@);
                assert(f == i);
            }
            return Some(&cache[i]);
        }
        i += 1;
    }
    proof {
        let s = recipe_id_list(cache@);
        if s.contains(id@) {
            let k = choose|k: int| 0 <= k < s.len() && s[k] == id@;
            assert(false);
        }
    }
    None
}

} // verus!
