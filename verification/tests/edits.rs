use spoon::edit::{
    diff_dependencies, diff_labels, diff_requirements, has_unsaved_changes, plan_update,
    EditRequest, RecipeEditWindowActions, RecipeEditWindowState,
};
use spoon::model::{
    Dependency, IngredientIndex, LabelIndex, Recipe, RecipeIndex, Requirement,
};
use spoon::recipe_edit::{RecipeField, RecipeEditWindowState as BufferedState};

fn ingredient(id: &str) -> IngredientIndex {
    IngredientIndex { id: id.to_string(), name: format!("name of {}", id) }
}

fn requirement(id: &str, quantity: &str) -> Requirement {
    Requirement { ingredient: ingredient(id), quantity: quantity.to_string(), optional: false }
}

fn label(id: &str, name: &str) -> LabelIndex {
    LabelIndex { id: id.to_string(), name: name.to_string() }
}

fn dependency(id: &str, quantity: &str) -> Dependency {
    Dependency {
        recipe: RecipeIndex { id: id.to_string(), name: id.to_string() },
        quantity: quantity.to_string(),
        optional: false,
    }
}

fn blank() -> Recipe {
    Recipe {
        id: "r".to_string(),
        name: "Pie".to_string(),
        author: "Ann".to_string(),
        directions: "Bake.".to_string(),
        tags: vec![],
        requirements: vec![],
        dependencies: vec![],
    }
}

fn pairs(v: &Vec<Requirement>) -> Vec<(String, String)> {
    v.iter().map(|q| (q.ingredient.id.clone(), q.quantity.clone())).collect()
}

fn pair(id: &str, quantity: &str) -> (String, String) {
    (id.to_string(), quantity.to_string())
}

fn loaded(recipe: Recipe) -> RecipeEditWindowState {
    let state = RecipeEditWindowState { original_recipe: None, new_recipe: blank() };
    state.reduce(RecipeEditWindowActions::UpdateRecipe(recipe))
}

#[test]
fn requirement_diff_tells_added_removed_and_updated() {
    let original = vec![requirement("A", "1"), requirement("B", "2")];
    let edited = vec![requirement("B", "3"), requirement("C", "4")];
    let diff = diff_requirements(&original, &edited);
    assert_eq!(pairs(&diff.added), vec![pair("C", "4")]);
    assert_eq!(pairs(&diff.removed), vec![pair("A", "1")]);
    assert_eq!(pairs(&diff.updated), vec![pair("B", "3")]);
}

#[test]
fn requirement_diff_of_equal_lists_is_empty() {
    let original = vec![requirement("A", "1"), requirement("B", "2")];
    let edited = vec![requirement("B", "2"), requirement("A", "1")];
    let diff = diff_requirements(&original, &edited);
    assert!(diff.added.is_empty());
    assert!(diff.removed.is_empty());
    assert!(diff.updated.is_empty());
}

#[test]
fn requirement_made_optional_is_updated() {
    let original = vec![requirement("A", "1")];
    let mut edited = vec![requirement("A", "1")];
    edited[0].optional = true;
    let diff = diff_requirements(&original, &edited);
    assert!(diff.added.is_empty());
    assert!(diff.removed.is_empty());
    assert_eq!(diff.updated.len(), 1);
    assert!(diff.updated[0].optional);
}

#[test]
fn label_and_dependency_diffs_go_by_the_whole_value() {
    let from = vec![label("1", "sweet"), label("2", "quick")];
    let other = vec![label("2", "quick"), label("", "sweet")];
    let gone = diff_labels(&from, &other);
    assert_eq!(gone.len(), 1);
    assert_eq!(gone[0].id, "1");
    let come = diff_labels(&other, &from);
    assert_eq!(come.len(), 1);
    assert_eq!(come[0].id, "");
    assert_eq!(come[0].name, "sweet");

    let deps = vec![dependency("d", "1"), dependency("e", "1")];
    let changed = vec![dependency("d", "2"), dependency("e", "1")];
    let gone = diff_dependencies(&deps, &changed);
    assert_eq!(gone.len(), 1);
    assert_eq!(gone[0].quantity, "1");
    let come = diff_dependencies(&changed, &deps);
    assert_eq!(come.len(), 1);
    assert_eq!(come[0].quantity, "2");
}

#[test]
fn plan_lists_the_requests_in_order() {
    let mut original = blank();
    original.requirements = vec![requirement("A", "1"), requirement("B", "2")];
    original.tags = vec![label("1", "sweet")];
    original.dependencies = vec![dependency("d", "1")];
    let mut edited = blank();
    edited.name = "Tart".to_string();
    edited.requirements = vec![requirement("B", "3"), requirement("C", "4")];
    edited.tags = vec![label("", "quick")];
    edited.dependencies = vec![dependency("d", "2")];
    let plan = plan_update(&original, &edited);
    let told: Vec<String> = plan.iter().map(|r| format!("{:?}", r)).collect();
    assert_eq!(
        told,
        vec![
            "DeleteRequirement { ingredient: \"A\" }",
            "CreateRequirement { ingredient: \"C\", quantity: \"4\", optional: false }",
            "UpdateRequirement { ingredient: \"B\", quantity: \"3\", optional: false }",
            "DeleteDependency { recipe: \"d\" }",
            "CreateDependency { recipe: \"d\", quantity: \"2\", optional: false }",
            "Untag { label: \"1\" }",
            "Tag { name: \"quick\" }",
            "UpdateRecipe { name: \"Tart\", author: \"Ann\", directions: \"Bake.\" }",
        ]
    );
}

#[test]
fn plan_of_an_untouched_draft_only_sends_the_text() {
    let mut original = blank();
    original.requirements = vec![requirement("A", "1")];
    let edited = original.clone();
    let plan = plan_update(&original, &edited);
    assert_eq!(plan.len(), 1);
    assert!(matches!(&plan[0], EditRequest::UpdateRecipe { name, .. } if name == "Pie"));
    assert!(!has_unsaved_changes(&original, &edited));
}

#[test]
fn any_change_is_unsaved() {
    let original = blank();
    let mut edited = blank();
    edited.author = "Bob".to_string();
    assert!(has_unsaved_changes(&original, &edited));
    let mut edited = blank();
    edited.directions = "Fry.".to_string();
    assert!(has_unsaved_changes(&original, &edited));
    let mut edited = blank();
    edited.requirements.push(requirement("A", "1"));
    assert!(has_unsaved_changes(&original, &edited));
    let mut edited = blank();
    edited.tags.push(label("", "quick"));
    assert!(has_unsaved_changes(&original, &edited));
    let mut edited = blank();
    edited.dependencies.push(dependency("d", ""));
    assert!(has_unsaved_changes(&original, &edited));
}

#[test]
fn draft_starts_from_the_recipe_that_came() {
    let mut recipe = blank();
    recipe.requirements = vec![requirement("A", "1")];
    let state = loaded(recipe);
    let original = state.original_recipe.as_ref().expect("the original");
    assert_eq!(original.name, "Pie");
    assert_eq!(pairs(&original.requirements), vec![pair("A", "1")]);
    assert_eq!(state.new_recipe.name, "Pie");
    assert!(!has_unsaved_changes(original, &state.new_recipe));
}

#[test]
fn draft_takes_new_text() {
    let state = loaded(blank());
    let state = state.reduce(RecipeEditWindowActions::UpdateName("Tart".to_string()));
    let state = state.reduce(RecipeEditWindowActions::UpdateAuthor("Bob".to_string()));
    let state = state.reduce(RecipeEditWindowActions::UpdateDirections("Fry.".to_string()));
    assert_eq!(state.new_recipe.name, "Tart");
    assert_eq!(state.new_recipe.author, "Bob");
    assert_eq!(state.new_recipe.directions, "Fry.");
    assert_eq!(state.original_recipe.as_ref().unwrap().name, "Pie");
}

#[test]
fn draft_requirements_follow_the_actions() {
    let state = loaded(blank());
    let state = state
        .reduce(RecipeEditWindowActions::AddRequirement(ingredient("A"), "1".to_string(), false));
    let state = state
        .reduce(RecipeEditWindowActions::AddRequirement(ingredient("B"), "2".to_string(), true));
    // an ingredient is asked for once
    let state = state
        .reduce(RecipeEditWindowActions::AddRequirement(ingredient("A"), "9".to_string(), false));
    assert_eq!(pairs(&state.new_recipe.requirements), vec![pair("A", "1"), pair("B", "2")]);
    assert_eq!(state.ingredients_in_use(), vec!["A".to_string(), "B".to_string()]);

    let state = state.reduce(RecipeEditWindowActions::UpdateRequirement(
        requirement("A", "1"),
        "5".to_string(),
        true,
    ));
    assert_eq!(pairs(&state.new_recipe.requirements), vec![pair("A", "5"), pair("B", "2")]);
    assert!(state.new_recipe.requirements[0].optional);
    assert_eq!(state.new_recipe.requirements[0].ingredient.name, "name of A");

    let state = state.reduce(RecipeEditWindowActions::UpdateRequirement(
        requirement("C", "1"),
        "7".to_string(),
        false,
    ));
    assert_eq!(
        pairs(&state.new_recipe.requirements),
        vec![pair("A", "5"), pair("B", "2"), pair("C", "7")]
    );

    let state = state.reduce(RecipeEditWindowActions::DeleteRequirement(requirement("B", "2")));
    assert_eq!(pairs(&state.new_recipe.requirements), vec![pair("A", "5"), pair("C", "7")]);
    assert!(state.original_recipe.as_ref().unwrap().requirements.is_empty());
}

#[test]
fn draft_labels_follow_the_actions() {
    let mut recipe = blank();
    recipe.tags = vec![label("1", "sweet")];
    let state = loaded(recipe);
    let state = state.reduce(RecipeEditWindowActions::AddTag("quick".to_string()));
    let state = state.reduce(RecipeEditWindowActions::AddTag("quick".to_string()));
    let names: Vec<&str> = state.new_recipe.tags.iter().map(|t| t.name.as_str()).collect();
    assert_eq!(names, vec!["sweet", "quick"]);
    assert_eq!(state.new_recipe.tags[1].id, "");
    let state = state.reduce(RecipeEditWindowActions::DeleteTag("sweet".to_string()));
    let names: Vec<&str> = state.new_recipe.tags.iter().map(|t| t.name.as_str()).collect();
    assert_eq!(names, vec!["quick"]);
    assert_eq!(state.original_recipe.as_ref().unwrap().tags.len(), 1);
}

#[test]
fn buffers_hold_the_fields_of_the_recipe_that_came() {
    let state = BufferedState::new();
    assert!(state.recipe.is_none());
    assert!(state.field_update(RecipeField::Name).is_none());
    let state = state.with_buffer(RecipeField::Name, "typed early".to_string());
    assert_eq!(state.name_buffer, "typed early");
    assert!(state.field_update(RecipeField::Name).is_none());

    let state = state.refreshed(blank());
    assert_eq!(state.name_buffer, "Pie");
    assert_eq!(state.author_buffer, "Ann");
    assert_eq!(state.directions_buffer, "Bake.");

    let state = state.with_buffer(RecipeField::Author, "Bob".to_string());
    let state = state.with_buffer(RecipeField::Directions, "Fry.".to_string());
    assert_eq!(state.name_buffer, "Pie");
    let update = state.field_update(RecipeField::Author).expect("a request");
    assert_eq!(update.recipe, "r");
    assert_eq!(update.field, RecipeField::Author);
    assert_eq!(update.value, "Bob");
    let update = state.field_update(RecipeField::Directions).expect("a request");
    assert_eq!(update.value, "Fry.");
    let update = state.field_update(RecipeField::Name).expect("a request");
    assert_eq!(update.value, "Pie");
    assert_eq!(state.recipe.as_ref().unwrap().author, "Ann");
}

#[test]
fn draft_dependencies_follow_the_actions() {
    let state = RecipeEditWindowState::new();
    assert!(state.original_recipe.is_none());
    assert_eq!(state.new_recipe, Recipe::empty());
    let state = state.reduce(RecipeEditWindowActions::UpdateRecipe(blank()));
    let needed = |id: &str| RecipeIndex { id: id.to_string(), name: format!("name of {}", id) };
    let state =
        state.reduce(RecipeEditWindowActions::AddDependency(needed("d"), "1".to_string(), false));
    let state =
        state.reduce(RecipeEditWindowActions::AddDependency(needed("e"), "2".to_string(), true));
    // a recipe is needed once
    let state =
        state.reduce(RecipeEditWindowActions::AddDependency(needed("d"), "9".to_string(), true));
    let told = |state: &RecipeEditWindowState| -> Vec<(String, String, bool)> {
        state
            .new_recipe
            .dependencies
            .iter()
            .map(|d| (d.recipe.id.clone(), d.quantity.clone(), d.optional))
            .collect()
    };
    let line = |id: &str, quantity: &str, optional: bool| {
        (id.to_string(), quantity.to_string(), optional)
    };
    assert_eq!(told(&state), vec![line("d", "1", false), line("e", "2", true)]);
    assert_eq!(state.recipes_in_use(), vec!["d".to_string(), "e".to_string()]);

    let state = state.reduce(RecipeEditWindowActions::UpdateDependency(
        dependency("d", "1"),
        "3".to_string(),
        true,
    ));
    assert_eq!(told(&state), vec![line("d", "3", true), line("e", "2", true)]);
    assert_eq!(state.new_recipe.dependencies[0].recipe.name, "name of d");

    let state = state.reduce(RecipeEditWindowActions::UpdateDependency(
        dependency("f", ""),
        "4".to_string(),
        false,
    ));
    assert_eq!(
        told(&state),
        vec![line("d", "3", true), line("e", "2", true), line("f", "4", false)]
    );

    let state = state.reduce(RecipeEditWindowActions::DeleteDependency(dependency("e", "")));
    assert_eq!(told(&state), vec![line("d", "3", true), line("f", "4", false)]);
    assert!(state.original_recipe.as_ref().unwrap().dependencies.is_empty());
    assert!(state.new_recipe.requirements.is_empty());

    let plan = plan_update(state.original_recipe.as_ref().unwrap(), &state.new_recipe);
    assert_eq!(plan.len(), 3);
    assert_eq!(
        plan[0],
        EditRequest::CreateDependency {
            recipe: "d".to_string(),
            quantity: "3".to_string(),
            optional: true
        }
    );
}

#[test]
fn copy_of_a_recipe_holds_the_same() {
    let mut recipe = blank();
    recipe.requirements = vec![requirement("A", "1")];
    recipe.tags = vec![label("1", "sweet")];
    recipe.dependencies = vec![dependency("d", "1")];
    assert_eq!(recipe.clone(), recipe);
}
