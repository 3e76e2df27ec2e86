use spoon::ingredient::{
    contents_line, decimal_text, usage_heading, Classifications, Ingredient,
    IngredientEditActions, IngredientEditState,
};
use spoon::model::RecipeIndex;
use spoon::status::{
    status_banner, AppSettings, AppState, Message, StatusBarEvent, StatusBarState, SHOWN_FOR_MS,
};

fn nothing() -> Classifications {
    Classifications { dairy: false, meat: false, gluten: false, animal_product: false }
}

fn butter() -> Ingredient {
    Ingredient {
        id: "i1".to_string(),
        name: "butter".to_string(),
        classifications: Classifications { dairy: true, animal_product: true, ..nothing() },
        used_in: vec![RecipeIndex { id: "r".to_string(), name: "Pie".to_string() }],
    }
}

#[test]
fn contents_are_listed_in_order() {
    assert_eq!(contents_line(&nothing()), None);
    let all = Classifications { dairy: true, meat: true, gluten: true, animal_product: true };
    assert_eq!(
        contents_line(&all).unwrap(),
        "Contient: produit laitier, viande, gluten, produit animalier."
    );
    let some = Classifications { meat: true, animal_product: true, ..nothing() };
    assert_eq!(contents_line(&some).unwrap(), "Contient: viande, produit animalier.");
    let one = Classifications { gluten: true, ..nothing() };
    assert_eq!(contents_line(&one).unwrap(), "Contient: gluten.");
}

#[test]
fn numbers_are_written_in_digits() {
    assert_eq!(decimal_text(0), "0");
    assert_eq!(decimal_text(7), "7");
    assert_eq!(decimal_text(10), "10");
    assert_eq!(decimal_text(409), "409");
    assert_eq!(decimal_text(1234567890), "1234567890");
    assert_eq!(decimal_text(usize::MAX), usize::MAX.to_string());
}

#[test]
fn heading_counts_the_recipes() {
    assert_eq!(usage_heading(0), "Used in 0 recipe.");
    assert_eq!(usage_heading(1), "Used in 1 recipe:");
    assert_eq!(usage_heading(2), "Used in 2 recipes:");
    assert_eq!(usage_heading(12), "Used in 12 recipes:");
}

#[test]
fn ingredient_draft_follows_the_actions() {
    let state = IngredientEditState::new();
    assert!(state.original_ingredient.is_none());
    assert_eq!(state.new_ingredient.name, "");
    let state = state.reduce(IngredientEditActions::UpdateIngredient(butter()));
    assert_eq!(state.original_ingredient.as_ref().unwrap().name, "butter");
    assert_eq!(state.original_ingredient.as_ref().unwrap().used_in.len(), 1);
    assert_eq!(state.new_ingredient.id, "i1");

    let state = state.reduce(IngredientEditActions::UpdateName("ghee".to_string()));
    let state = state.reduce(IngredientEditActions::ToggleDairy);
    let state = state.reduce(IngredientEditActions::ToggleMeat);
    let state = state.reduce(IngredientEditActions::ToggleGluten);
    let state = state.reduce(IngredientEditActions::ToggleAnimalProduct);
    assert_eq!(state.new_ingredient.name, "ghee");
    assert_eq!(
        state.new_ingredient.classifications,
        Classifications { dairy: false, meat: true, gluten: true, animal_product: false }
    );
    assert_eq!(
        state.original_ingredient.as_ref().unwrap().classifications,
        butter().classifications
    );

    let state = state.reduce(IngredientEditActions::Reset);
    assert_eq!(state.new_ingredient.name, "butter");
    assert_eq!(state.new_ingredient.classifications, butter().classifications);
    assert_eq!(state.new_ingredient.used_in.len(), 1);
    assert_eq!(state.new_ingredient.used_in[0].id, "r");
}

#[test]
fn reset_without_original_empties_the_draft() {
    let state = IngredientEditState::new();
    let state = state.reduce(IngredientEditActions::UpdateName("typed".to_string()));
    let state = state.reduce(IngredientEditActions::ToggleMeat);
    assert!(state.new_ingredient.classifications.meat);
    let state = state.reduce(IngredientEditActions::Reset);
    assert_eq!(state.new_ingredient.name, "");
    assert_eq!(state.new_ingredient.classifications, nothing());
    assert!(state.original_ingredient.is_none());
}

#[test]
fn banner_shows_kind_and_text() {
    assert!(status_banner(&Message::Empty, true).is_none());
    assert!(status_banner(&Message::Empty, false).is_none());
    let error = Message::Error("no route".to_string(), 17);
    assert_eq!(
        status_banner(&error, true),
        Some(("status  error".to_string(), "no route".to_string()))
    );
    assert_eq!(
        status_banner(&error, false),
        Some(("status hidden error".to_string(), "no route".to_string()))
    );
    let info = Message::Info("hello".to_string(), 0);
    assert_eq!(status_banner(&info, false).unwrap().0, "status hidden info");
    let success = Message::Success("done".to_string(), 0);
    assert_eq!(status_banner(&success, true).unwrap().0, "status  success");
}

#[test]
fn banner_comes_with_a_message_and_goes_with_time() {
    assert_eq!(SHOWN_FOR_MS, 2000);
    let state = StatusBarState::new();
    assert!(!state.shown);
    let state = state.reduce(StatusBarEvent::Changed(&Message::Empty));
    assert!(!state.shown);
    let message = Message::Info("hello".to_string(), 5);
    let state = state.reduce(StatusBarEvent::Changed(&message));
    assert!(state.shown);
    let state = state.reduce(StatusBarEvent::Changed(&Message::Empty));
    assert!(state.shown);
    let state = state.reduce(StatusBarEvent::Expired);
    assert!(!state.shown);
}

#[test]
fn settings_and_state_of_the_application() {
    let settings = AppSettings::new();
    assert_eq!(settings.server_url, "");
    let next = AppSettings { server_url: "http://localhost:8000".to_string() };
    assert!(settings.server_changes(&next));
    assert!(!next.server_changes(&next.clone()));

    let state = AppState::new();
    assert!(matches!(state.last_error, Message::Empty));
    assert!(!state.edition);
    let state = state.with_status(Message::Error("no".to_string(), 3));
    assert!(matches!(&state.last_error, Message::Error(text, 3) if text == "no"));
    assert!(!state.edition);
    let copy = state.last_error.clone();
    assert!(matches!(copy, Message::Error(text, 3) if text == "no"));
}
