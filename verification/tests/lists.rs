use spoon::items::{
    find_ingredient, find_recipe_index, ingredient_options, recipe_options, sort_ingredients,
    AddItemMode, DependencyAddItemAction, DependencyAddItemState, RequirementAddItemAction,
    RequirementAddItemState,
};
use spoon::list::{
    intersect_recipes, pick_by_key, selected_labels, sort_labels, sort_recipes,
    sort_recipes_by_name, toggle_label, union_recipes, visible_recipes, Filters,
    RecipeListAction, RecipeListState,
};
use spoon::model::{IngredientIndex, LabelIndex, RecipeIndex};
use spoon::query::{deserialize_comma_list, serialize_comma_list};
use spoon::sorting::{sort_by_keys, sorted_places};
use spoon::text::{lower_name, simplify_name};

fn recipe(id: &str, name: &str) -> RecipeIndex {
    RecipeIndex { id: id.to_string(), name: name.to_string() }
}

fn ingredient(id: &str, name: &str) -> IngredientIndex {
    IngredientIndex { id: id.to_string(), name: name.to_string() }
}

fn label(id: &str, name: &str) -> LabelIndex {
    LabelIndex { id: id.to_string(), name: name.to_string() }
}

fn strings(v: &[&str]) -> Vec<String> {
    v.iter().map(|s| s.to_string()).collect()
}

fn recipe_ids(v: &Vec<RecipeIndex>) -> Vec<&str> {
    v.iter().map(|r| r.id.as_str()).collect()
}

#[test]
fn names_are_simplified() {
    assert_eq!(simplify_name("Crème Brûlée"), "creme brulee");
    assert_eq!(simplify_name("PIE"), "pie");
    assert_eq!(simplify_name("Æble"), "aeble");
    assert_eq!(simplify_name(""), "");
    assert_eq!(simplify_name("Creme BRULEE 2"), "creme brulee 2");
    assert_eq!(lower_name("Creme BRULEE 2 [?]"), "creme brulee 2 [?]");
    assert_eq!(lower_name("@AZ[`az{"), "@az[`az{");
    assert_eq!(lower_name(""), "");
}

#[test]
fn places_are_sorted_by_key_and_keep_their_order_on_ties() {
    assert_eq!(sorted_places(&strings(&["b", "a", "c", "a", ""])), vec![4, 1, 3, 0, 2]);
    assert_eq!(sorted_places(&strings(&[])), Vec::<usize>::new());
    assert_eq!(sorted_places(&strings(&["x", "x", "x"])), vec![0, 1, 2]);
    // a text comes after its own beginnings, and capitals before small letters
    assert_eq!(sorted_places(&strings(&["ab", "a", "B", "", "az", "b"])), vec![3, 2, 1, 0, 4, 5]);
    let items = vec![10, 20, 30];
    let sorted = sort_by_keys(&items, &strings(&["c", "a", "b"]));
    assert_eq!(sorted, vec![&20, &30, &10]);
}

#[test]
fn recipes_are_sorted_by_simplified_name() {
    let recipes = vec![
        recipe("1", "tarte"),
        recipe("2", "Éclair"),
        recipe("3", "crème"),
        recipe("4", "Eclair"),
        recipe("5", "Bread"),
    ];
    let ids: Vec<&str> = sort_recipes(&recipes).iter().map(|r| r.id.as_str()).collect();
    assert_eq!(ids, vec!["5", "3", "2", "4", "1"]);
    let ids: Vec<&str> = sort_recipes_by_name(&recipes).iter().map(|r| r.id.as_str()).collect();
    assert_eq!(ids, vec!["5", "4", "3", "1", "2"]);
}

#[test]
fn recipes_are_shown_by_pattern() {
    let recipes = vec![recipe("1", "Tarte Tatin"), recipe("2", "Crème Brûlée"), recipe("3", "Pâté")];
    assert_eq!(recipe_ids(&visible_recipes(&recipes, "t")), vec!["1", "3"]);
    assert_eq!(recipe_ids(&visible_recipes(&recipes, "brul")), vec!["2"]);
    assert_eq!(recipe_ids(&visible_recipes(&recipes, "")), vec!["1", "2", "3"]);
    // the pattern is taken as it is
    assert!(visible_recipes(&recipes, "T").is_empty());
    assert_eq!(recipe_ids(&visible_recipes(&recipes, "creme brulee")), vec!["2"]);
    assert!(visible_recipes(&recipes, "brule ").is_empty());
    assert!(visible_recipes(&vec![], "").is_empty());
    let keys = strings(&["one", "two", "three"]);
    assert_eq!(recipe_ids(&pick_by_key(&recipes, &keys, "t")), vec!["2", "3"]);
    assert_eq!(recipe_ids(&pick_by_key(&recipes, &keys, "one")), vec!["1"]);
    assert_eq!(recipe_ids(&pick_by_key(&recipes, &keys, "")), vec!["1", "2", "3"]);
    assert!(pick_by_key(&recipes, &keys, "ones").is_empty());
    assert!(pick_by_key(&recipes, &keys, "eno").is_empty());
}

#[test]
fn list_state_takes_what_comes() {
    let state = RecipeListState::new();
    assert!(state.recipes.is_empty() && state.labels.is_empty() && state.pattern.is_empty());
    let state = state.reduce(RecipeListAction::UpdateRecipes(vec![recipe("1", "a")]));
    let state = state.reduce(RecipeListAction::UpdateLabels(vec![label("l", "sweet")]));
    let state = state.reduce(RecipeListAction::UpdatePattern("pat".to_string()));
    assert_eq!(recipe_ids(&state.recipes), vec!["1"]);
    assert_eq!(state.labels[0].name, "sweet");
    assert_eq!(state.pattern, "pat");
    let state = state.reduce(RecipeListAction::UpdateRecipes(vec![]));
    assert!(state.recipes.is_empty());
    assert_eq!(state.labels.len(), 1);
    assert_eq!(state.pattern, "pat");
}

#[test]
fn labels_are_selected_by_name() {
    let labels = vec![label("1", "sweet"), label("2", "quick"), label("3", "sweet")];
    let picked = selected_labels(&labels, &strings(&["quick", "none", "sweet", "quick"]));
    let ids: Vec<&str> = picked.iter().map(|l| l.id.as_str()).collect();
    assert_eq!(ids, vec!["2", "1"]);
    assert!(selected_labels(&labels, &vec![]).is_empty());
    let ids: Vec<&str> = sort_labels(&labels).iter().map(|l| l.id.as_str()).collect();
    assert_eq!(ids, vec!["2", "1", "3"]);
}

#[test]
fn clicking_a_label_takes_it_in_or_out() {
    let selected = strings(&["a", "b", "a"]);
    assert_eq!(toggle_label(&selected, &"c".to_string()), strings(&["a", "b", "a", "c"]));
    assert_eq!(toggle_label(&selected, &"a".to_string()), strings(&["b", "a"]));
    assert_eq!(toggle_label(&selected, &"b".to_string()), strings(&["a", "a"]));
    assert_eq!(toggle_label(&vec![], &"a".to_string()), strings(&["a"]));
}

#[test]
fn names_are_written_with_commas_and_read_back() {
    assert_eq!(serialize_comma_list(&strings(&["a", "bc", "d"])), "a,bc,d");
    assert_eq!(serialize_comma_list(&strings(&["a"])), "a");
    assert_eq!(serialize_comma_list(&vec![]), "");
    assert_eq!(serialize_comma_list(&strings(&["", ""])), ",");
    assert_eq!(deserialize_comma_list("a,bc,d"), strings(&["a", "bc", "d"]));
    assert_eq!(deserialize_comma_list(",a,,b,"), strings(&["a", "b"]));
    assert_eq!(deserialize_comma_list(""), Vec::<String>::new());
    assert_eq!(deserialize_comma_list(",,"), Vec::<String>::new());
    assert_eq!(deserialize_comma_list("crème,thé"), strings(&["crème", "thé"]));
    let names = strings(&["sweet", "très vite"]);
    assert_eq!(deserialize_comma_list(&serialize_comma_list(&names)), names);
}

#[test]
fn filters_hold_plain_values() {
    let filters = Filters {
        labels: deserialize_comma_list("a,b"),
        restrictions: String::new(),
        name: String::new(),
    };
    assert_eq!(filters.labels, strings(&["a", "b"]));
}

#[test]
fn recipes_of_several_labels_are_joined_or_crossed() {
    let lists = vec![
        vec![recipe("1", "a"), recipe("2", "b"), recipe("1", "a")],
        vec![recipe("3", "c"), recipe("2", "b")],
        vec![recipe("2", "b"), recipe("1", "a")],
    ];
    assert_eq!(recipe_ids(&union_recipes(&lists)), vec!["1", "2", "3"]);
    assert_eq!(recipe_ids(&intersect_recipes(&lists)), vec!["2"]);
    assert!(union_recipes(&vec![]).is_empty());
    assert!(intersect_recipes(&vec![]).is_empty());
    let one = vec![vec![recipe("1", "a"), recipe("1", "a")]];
    assert_eq!(recipe_ids(&intersect_recipes(&one)), vec!["1"]);
}

#[test]
fn options_leave_out_what_is_in_use() {
    let cache = vec![
        ingredient("1", "sucre"),
        ingredient("2", "Œuf"),
        ingredient("3", "épice"),
        ingredient("4", "Farine"),
    ];
    let options = ingredient_options(&cache, &strings(&["1"]));
    let ids: Vec<&str> = options.iter().map(|i| i.id.as_str()).collect();
    // capitals come before small letters
    assert_eq!(ids, vec!["4", "2", "3"]);
    let ids: Vec<&str> = sort_ingredients(&cache).iter().map(|i| i.id.as_str()).collect();
    assert_eq!(ids, vec!["4", "2", "3", "1"]);

    let recipes = vec![recipe("1", "tarte"), recipe("2", "Éclair"), recipe("3", "crème")];
    let options = recipe_options(&recipes, &strings(&["3", "9"]));
    assert_eq!(recipe_ids(&options), vec!["2", "1"]);
    assert!(recipe_options(&recipes, &strings(&["1", "2", "3"])).is_empty());
}

#[test]
fn choices_are_found_by_identifier() {
    let cache = vec![ingredient("1", "sucre"), ingredient("2", "sel"), ingredient("1", "miel")];
    assert_eq!(find_ingredient(&cache, &"1".to_string()).unwrap().name, "sucre");
    assert_eq!(find_ingredient(&cache, &"2".to_string()).unwrap().name, "sel");
    assert!(find_ingredient(&cache, &"new".to_string()).is_none());
    let recipes = vec![recipe("1", "tarte"), recipe("2", "pie")];
    assert_eq!(find_recipe_index(&recipes, &"2".to_string()).unwrap().name, "pie");
    assert!(find_recipe_index(&recipes, &"3".to_string()).is_none());
}

#[test]
fn requirement_form_follows_the_actions() {
    let state = RequirementAddItemState::new();
    assert_eq!(state.mode, AddItemMode::Collapsed);
    let state = state.reduce(RequirementAddItemAction::Open);
    assert_eq!(state.mode, AddItemMode::Open);
    let state = state.reduce(RequirementAddItemAction::SetIngredient(ingredient("1", "sucre")));
    let state = state.reduce(RequirementAddItemAction::SetQuantity("3".to_string()));
    let state = state.reduce(RequirementAddItemAction::ToggleOptional);
    assert_eq!(state.selected_ingredient.as_ref().unwrap().id, "1");
    assert_eq!(state.quantity_buffer, "3");
    assert!(state.optional);
    assert_eq!(state.mode, AddItemMode::Open);
    let state = state.reduce(RequirementAddItemAction::ToggleOptional);
    assert!(!state.optional);
    let state = state.reduce(RequirementAddItemAction::Close);
    assert_eq!(state.mode, AddItemMode::Collapsed);
    assert!(state.selected_ingredient.is_none());
    assert_eq!(state.quantity_buffer, "");
    assert!(!state.optional);
}

#[test]
fn dependency_form_follows_the_actions() {
    let state = DependencyAddItemState::new();
    let state = state.reduce(DependencyAddItemAction::Open);
    let state = state.reduce(DependencyAddItemAction::SetRecipe(recipe("1", "tarte")));
    let state = state.reduce(DependencyAddItemAction::SetQuantity("half".to_string()));
    let state = state.reduce(DependencyAddItemAction::ToggleOptional);
    assert_eq!(state.mode, AddItemMode::Open);
    assert_eq!(state.selected_recipe.as_ref().unwrap().name, "tarte");
    assert_eq!(state.quantity_buffer, "half");
    assert!(state.optional);
    let state = state.reduce(DependencyAddItemAction::Close);
    assert_eq!(state.mode, AddItemMode::Collapsed);
    assert!(state.selected_recipe.is_none());
    assert_eq!(state.quantity_buffer, "");
    assert!(!state.optional);
}

#[test]
fn every_character_is_simplified_to_ascii() {
    let mut text = String::new();
    for code in 0..=0x10FFFFu32 {
        if let Some(c) = char::from_u32(code) {
            text.clear();
            text.push(c);
            assert!(unidecode::unidecode(&text).is_ascii(), "character {:x}", code);
            let simple = simplify_name(&text);
            assert!(simple.is_ascii(), "character {:x}", code);
            assert!(!simple.chars().any(|c| c.is_ascii_uppercase()), "character {:x}", code);
        }
    }
}
