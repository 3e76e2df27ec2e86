use spoon::model::{
    Dependency, IngredientIndex, LabelIndex, Recipe, RecipeIndex, Requirement,
};
use spoon::order::{get_recipe_order, RecipeElement};
use spoon::render::{
    directions_with, render, render_directions, render_requirements, window_title,
};

fn requirement(id: &str, name: &str, quantity: &str) -> Requirement {
    Requirement {
        ingredient: IngredientIndex { id: id.to_string(), name: name.to_string() },
        quantity: quantity.to_string(),
        optional: false,
    }
}

fn dependency(id: &str, optional: bool) -> Dependency {
    Dependency {
        recipe: RecipeIndex { id: id.to_string(), name: id.to_string() },
        quantity: String::new(),
        optional,
    }
}

fn pie() -> Vec<Recipe> {
    vec![
        Recipe {
            id: "p".to_string(),
            name: "Pie".to_string(),
            author: "Ann".to_string(),
            directions: "# Bake\n\nFill the *dough*.".to_string(),
            tags: vec![LabelIndex { id: "l1".to_string(), name: "dessert".to_string() }],
            requirements: vec![requirement("i1", "apple", "3")],
            dependencies: vec![dependency("d", false), dependency("c", true)],
        },
        Recipe {
            id: "d".to_string(),
            name: "Dough".to_string(),
            author: "Bob".to_string(),
            directions: "Knead.".to_string(),
            tags: vec![],
            requirements: vec![requirement("i2", "flour", "200 g"), requirement("i3", "water", "")],
            dependencies: vec![],
        },
        Recipe {
            id: "c".to_string(),
            name: "Cream".to_string(),
            author: "Bob".to_string(),
            directions: String::new(),
            tags: vec![],
            requirements: vec![],
            dependencies: vec![],
        },
    ]
}

fn html_of(directions: &str) -> String {
    let mut recipe = pie().remove(2);
    recipe.directions = directions.to_string();
    render_directions(&RecipeElement::MainRecipe(&recipe)).body
}

#[test]
fn markdown_becomes_html() {
    assert_eq!(html_of("# Title"), "<h1>Title</h1>\n");
    assert_eq!(html_of("a *b* c"), "<p>a <em>b</em> c</p>\n");
    assert_eq!(html_of("* one\n* two"), "<ul>\n<li>one</li>\n<li>two</li>\n</ul>\n");
    assert_eq!(html_of(""), "");
}

#[test]
fn page_holds_header_and_a_block_for_each_recipe() {
    let page = render(&pie()).expect("a page");
    assert_eq!(page.name, "Pie");
    assert_eq!(page.author, "Ann");
    assert_eq!(page.tags.len(), 1);
    assert_eq!(page.tags[0].id, "l1");
    assert_eq!(page.tags[0].name, "dessert");

    let subtitles: Vec<&str> = page.requirements.iter().map(|b| b.subtitle.as_str()).collect();
    assert_eq!(subtitles, vec!["Pie", "Cream - Optional", "Dough"]);
    let keys: Vec<&str> = page.requirements.iter().map(|b| b.key.as_str()).collect();
    assert_eq!(keys, vec!["p", "c", "d"]);
    assert_eq!(page.requirements[0].rows.len(), 1);
    assert_eq!(page.requirements[0].rows[0].key, "i1");
    assert_eq!(page.requirements[0].rows[0].ingredient, "apple");
    assert_eq!(page.requirements[0].rows[0].quantity, "3");
    assert_eq!(page.requirements[1].rows.len(), 0);
    assert_eq!(page.requirements[2].rows.len(), 2);
    assert_eq!(page.requirements[2].rows[1].ingredient, "water");

    let headings: Vec<&str> = page.directions.iter().map(|b| b.subtitle.as_str()).collect();
    assert_eq!(headings, vec!["Pie", "Cream", "Dough"]);
    assert_eq!(page.directions[0].body, "<h1>Bake</h1>\n<p>Fill the <em>dough</em>.</p>\n");
    assert_eq!(page.directions[1].body, "");
    assert_eq!(page.directions[2].body, "<p>Knead.</p>\n");
}

#[test]
fn no_main_recipe_no_page() {
    assert!(render(&vec![]).is_none());
}

#[test]
fn page_of_a_recipe_whose_dependency_is_missing() {
    let mut recipes = pie();
    recipes.remove(1);
    let page = render(&recipes).expect("a page");
    let subtitles: Vec<&str> = page.requirements.iter().map(|b| b.subtitle.as_str()).collect();
    assert_eq!(subtitles, vec!["Pie", "Cream - Optional"]);
    assert_eq!(page.requirements[0].rows[0].ingredient, "apple");
    assert_eq!(page.directions.len(), 2);
}

#[test]
fn blocks_of_single_elements() {
    let recipes = pie();
    let shown = get_recipe_order(&recipes);
    let block = render_requirements(&shown[2]);
    assert_eq!(block.key, "d");
    assert_eq!(block.subtitle, "Dough");
    let directions = render_directions(&shown[2]);
    assert_eq!(directions.subtitle, "Dough");
    assert_eq!(directions.body, "<p>Knead.</p>\n");
    let optional = dependency("d", true);
    let element = RecipeElement::DependencyRecipe(&optional, &recipes[1]);
    assert_eq!(render_requirements(&element).subtitle, "Dough - Optional");
    assert_eq!(render_directions(&element).subtitle, "Dough");
    let main = RecipeElement::MainRecipe(&recipes[1]);
    assert_eq!(render_requirements(&main).subtitle, "Dough");
}

#[test]
fn directions_go_under_the_name_of_the_recipe() {
    let block = directions_with(&pie()[1], "<p>any</p>".to_string());
    assert_eq!(block.subtitle, "Dough");
    assert_eq!(block.body, "<p>any</p>");
}

#[test]
fn title_names_the_recipe_or_says_loading() {
    assert_eq!(window_title(&pie()), "Pie - spoon");
    assert_eq!(window_title(&vec![]), "Loading - spoon");
}
