use spoon::graph::calc_missing;
use spoon::model::{Dependency, Recipe, RecipeIndex};
use spoon::order::{get_recipe_order, RecipeElement};
use spoon::resolver::{Effect, Phase, RecipeWindowActions, RecipeWindowState};

fn recipe(id: &str, name: &str, deps: &[&str]) -> Recipe {
    Recipe {
        id: id.to_string(),
        name: name.to_string(),
        author: String::new(),
        directions: String::new(),
        tags: vec![],
        requirements: vec![],
        dependencies: deps
            .iter()
            .map(|d| Dependency {
                recipe: RecipeIndex { id: d.to_string(), name: d.to_string() },
                quantity: String::new(),
                optional: false,
            })
            .collect(),
    }
}

fn shown_names(recipes: &Vec<Recipe>) -> Vec<String> {
    get_recipe_order(recipes)
        .iter()
        .map(|e| match e {
            RecipeElement::MainRecipe(r) => r.name.clone(),
            RecipeElement::DependencyRecipe(_, r) => r.name.clone(),
        })
        .collect()
}

fn fetch_list(effect: &Effect) -> Vec<String> {
    match effect {
        Effect::Fetch(ids) => ids.clone(),
        _ => panic!("a fetch was expected"),
    }
}

fn known(state: &RecipeWindowState) -> Vec<String> {
    state.recipes.iter().map(|r| r.id.clone()).collect()
}

/// Runs a resolution to its end against a table of recipes; an identifier that the
/// table lacks fails to fetch. Returns the state and the rounds that were asked for.
fn resolve(table: &Vec<Recipe>, root: &str) -> (RecipeWindowState, Vec<Vec<String>>) {
    let (mut state, mut effect) = RecipeWindowState::start(root.to_string());
    let mut rounds = vec![];
    loop {
        let asked = match &effect {
            Effect::Fetch(ids) => ids.clone(),
            _ => return (state, rounds),
        };
        rounds.push(asked.clone());
        assert!(rounds.len() <= table.len() + 2, "the resolution does not end");
        let found: Vec<Recipe> =
            asked.iter().filter_map(|id| table.iter().find(|r| &r.id == id).cloned()).collect();
        let action = if state.phase == Phase::AwaitingRoot {
            match found.into_iter().next() {
                Some(r) => RecipeWindowActions::UpdateRecipe(root.to_string(), r),
                None => RecipeWindowActions::RootFailed(root.to_string(), "not found".to_string()),
            }
        } else {
            RecipeWindowActions::UpdateDependencies(root.to_string(), found)
        };
        let next = state.reduce(action);
        state = next.0;
        effect = next.1;
    }
}

#[test]
fn two_recipes_resolve_in_two_rounds() {
    let (state, effect) = RecipeWindowState::start("r1".to_string());
    assert_eq!(fetch_list(&effect), vec!["r1".to_string()]);
    assert_eq!(state.phase, Phase::AwaitingRoot);

    let (state, effect) = state
        .reduce(RecipeWindowActions::UpdateRecipe("r1".to_string(), recipe("r1", "one", &["r2"])));
    assert_eq!(fetch_list(&effect), vec!["r2".to_string()]);
    assert_eq!(state.phase, Phase::Resolving);

    let (state, effect) = state.reduce(RecipeWindowActions::UpdateDependencies(
        "r1".to_string(),
        vec![recipe("r2", "two", &[])],
    ));
    assert!(matches!(effect, Effect::Show));
    assert_eq!(state.phase, Phase::Complete);
    assert!(state.pending.is_empty());
    assert_eq!(known(&state), vec!["r1", "r2"]);
    assert!(calc_missing(&state.recipes, &state.attempted).is_empty());
    assert_eq!(get_recipe_order(&state.recipes).len(), 2);

    // nothing more is asked for, whatever comes
    let (state, effect) =
        state.reduce(RecipeWindowActions::UpdateDependencies("r1".to_string(), vec![]));
    assert!(matches!(effect, Effect::Nothing));
    assert_eq!(state.phase, Phase::Complete);
}

#[test]
fn chain_is_shown_user_first() {
    let recipes = vec![
        recipe("p", "Pie", &["d"]),
        recipe("d", "Dough", &["f"]),
        recipe("f", "Flour-mix", &[]),
    ];
    assert_eq!(shown_names(&recipes), vec!["Pie", "Dough", "Flour-mix"]);
}

#[test]
fn diamond_shows_shared_recipe_once() {
    let recipes = vec![
        recipe("root", "root", &["a", "b"]),
        recipe("a", "A", &["c"]),
        recipe("b", "B", &["c"]),
        recipe("c", "C", &[]),
    ];
    let names = shown_names(&recipes);
    assert_eq!(names.iter().filter(|n| n.as_str() == "C").count(), 1);
    assert_eq!(names, vec!["root", "B", "A", "C"]);
}

#[test]
fn shared_dependency_comes_after_both_users() {
    // root -> a, root -> b, b -> a: a is shown after b although root names it first
    let recipes =
        vec![recipe("root", "root", &["a", "b"]), recipe("a", "A", &[]), recipe("b", "B", &["a"])];
    assert_eq!(shown_names(&recipes), vec!["root", "B", "A"]);
}

#[test]
fn diamond_is_resolved_without_asking_twice() {
    let table = vec![
        recipe("root", "root", &["a", "b"]),
        recipe("a", "A", &["c"]),
        recipe("b", "B", &["c"]),
        recipe("c", "C", &[]),
    ];
    let (state, rounds) = resolve(&table, "root");
    assert_eq!(state.phase, Phase::Complete);
    assert_eq!(
        rounds,
        vec![
            vec!["root".to_string()],
            vec!["a".to_string(), "b".to_string()],
            vec!["c".to_string()]
        ]
    );
    assert_eq!(known(&state), vec!["root", "a", "b", "c"]);
    assert!(state.failed_dependencies().is_empty());
}

#[test]
fn resolving_twice_gives_the_same() {
    let table = vec![
        recipe("root", "root", &["a", "b"]),
        recipe("a", "A", &["c"]),
        recipe("b", "B", &["c"]),
        recipe("c", "C", &[]),
    ];
    let (first, first_rounds) = resolve(&table, "root");
    let (second, second_rounds) = resolve(&table, "root");
    assert_eq!(first_rounds, second_rounds);
    assert_eq!(known(&first), known(&second));
    assert_eq!(shown_names(&first.recipes), shown_names(&second.recipes));
}

#[test]
fn unreachable_recipes_are_not_fetched() {
    let table = vec![recipe("root", "root", &["a"]), recipe("a", "A", &[]), recipe("z", "Z", &[])];
    let (state, _) = resolve(&table, "root");
    assert_eq!(known(&state), vec!["root", "a"]);
}

#[test]
fn missing_dependency_leaves_the_root_in_place() {
    let table = vec![recipe("root", "Pie", &["gone", "d"]), recipe("d", "Dough", &[])];
    let (state, rounds) = resolve(&table, "root");
    assert_eq!(state.phase, Phase::Complete);
    assert_eq!(rounds, vec![vec!["root".to_string()], vec!["gone".to_string(), "d".to_string()]]);
    assert_eq!(known(&state), vec!["root", "d"]);
    assert_eq!(state.failed_dependencies(), vec!["gone".to_string()]);
    assert_eq!(shown_names(&state.recipes), vec!["Pie", "Dough"]);
}

#[test]
fn missing_root_shows_nothing() {
    let table = vec![recipe("a", "A", &[])];
    let (state, effect) = RecipeWindowState::start("root".to_string());
    let (state, effect) = match effect {
        Effect::Fetch(_) => state
            .reduce(RecipeWindowActions::RootFailed("root".to_string(), "no route".to_string())),
        _ => panic!("a fetch was expected"),
    };
    match effect {
        Effect::Report(message) => assert_eq!(message, "no route"),
        _ => panic!("a report was expected"),
    }
    assert_eq!(state.phase, Phase::RootNotFound);
    assert!(state.recipes.is_empty());
    assert!(get_recipe_order(&state.recipes).is_empty());
    let (state, _) = resolve(&table, "root");
    assert_eq!(state.phase, Phase::RootNotFound);
}

#[test]
fn cycle_is_resolved_and_shown_once() {
    let table = vec![recipe("a", "A", &["b"]), recipe("b", "B", &["a"])];
    let (state, rounds) = resolve(&table, "a");
    assert_eq!(state.phase, Phase::Complete);
    assert_eq!(rounds.len(), 2);
    assert_eq!(shown_names(&state.recipes), vec!["A", "B"]);
}

#[test]
fn recipe_that_needs_itself_is_shown_once() {
    let table = vec![recipe("a", "A", &["a"])];
    let (state, rounds) = resolve(&table, "a");
    assert_eq!(rounds, vec![vec!["a".to_string()]]);
    assert_eq!(shown_names(&state.recipes), vec!["A"]);
}

#[test]
fn answer_for_another_root_is_dropped() {
    let (state, _) = RecipeWindowState::start("r1".to_string());
    let (state, effect) = state
        .reduce(RecipeWindowActions::UpdateRecipe("other".to_string(), recipe("other", "o", &[])));
    assert!(matches!(effect, Effect::Nothing));
    assert_eq!(state.phase, Phase::AwaitingRoot);
    assert!(state.recipes.is_empty());
    assert_eq!(state.pending, vec!["r1".to_string()]);

    let (state, _) = state
        .reduce(RecipeWindowActions::UpdateRecipe("r1".to_string(), recipe("r1", "one", &["r2"])));
    let (state, effect) = state.reduce(RecipeWindowActions::UpdateDependencies(
        "other".to_string(),
        vec![recipe("r2", "two", &[])],
    ));
    assert!(matches!(effect, Effect::Nothing));
    assert_eq!(state.phase, Phase::Resolving);
    assert_eq!(known(&state), vec!["r1"]);
}

#[test]
fn recipe_fetched_twice_is_kept_once() {
    let (state, _) = RecipeWindowState::start("r1".to_string());
    let (state, _) = state
        .reduce(RecipeWindowActions::UpdateRecipe("r1".to_string(), recipe("r1", "one", &["r2"])));
    let (state, _) = state.reduce(RecipeWindowActions::UpdateDependencies(
        "r1".to_string(),
        vec![recipe("r2", "two", &[]), recipe("r2", "two again", &[]), recipe("r1", "one again", &[])],
    ));
    assert_eq!(known(&state), vec!["r1", "r2"]);
    assert_eq!(state.recipes[1].name, "two");
    assert_eq!(state.recipes[0].name, "one");
}

#[test]
fn frontier_names_each_missing_recipe_once() {
    let recipes = vec![recipe("root", "root", &["a", "b", "a"]), recipe("b", "B", &["c", "a", "root"])];
    assert_eq!(
        calc_missing(&recipes, &vec![]),
        vec!["a".to_string(), "c".to_string()]
    );
    assert_eq!(calc_missing(&recipes, &vec!["a".to_string()]), vec!["c".to_string()]);
    assert!(calc_missing(&vec![], &vec![]).is_empty());
}

#[test]
fn element_carries_the_dependency_of_its_first_user() {
    let mut root = recipe("root", "root", &["a", "b"]);
    root.dependencies[1].optional = true;
    let mut a = recipe("a", "A", &["b"]);
    a.dependencies[0].quantity = "2".to_string();
    let recipes = vec![root, a, recipe("b", "B", &[])];
    let shown = get_recipe_order(&recipes);
    assert_eq!(shown.len(), 3);
    assert!(matches!(shown[0], RecipeElement::MainRecipe(r) if r.id == "root"));
    match &shown[1] {
        RecipeElement::DependencyRecipe(d, r) => {
            assert_eq!(r.id, "a");
            assert_eq!(d.recipe.id, "a");
            assert!(!d.optional);
        }
        _ => panic!("a dependency was expected"),
    }
    match &shown[2] {
        RecipeElement::DependencyRecipe(d, r) => {
            assert_eq!(r.id, "b");
            // root is shown first and names b as optional
            assert!(d.optional);
            assert_eq!(d.quantity, "");
        }
        _ => panic!("a dependency was expected"),
    }
}

#[test]
fn graph_without_main_recipe_shows_nothing() {
    assert!(get_recipe_order(&vec![]).is_empty());
}
