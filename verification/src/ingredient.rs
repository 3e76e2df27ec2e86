//! Ingredients: what they are made of, the recipes that use them, and their edit.

use crate::model::{clone_recipe_indexes, RecipeIndex};
use vstd::prelude::*;
use vstd::string::{StrSliceExecFns, StringExecFns};

verus! {

/// What an ingredient holds that some diets leave out.
#[derive(Clone, Copy, Debug, PartialEq, Eq, Structural)]
pub struct Classifications {
    pub dairy: bool,
    pub meat: bool,
    pub gluten: bool,
    pub animal_product: bool,
}

/// An ingredient as the server describes it.
#[derive(Debug, PartialEq, Eq)]
pub struct Ingredient {
    pub id: String,
    pub name: String,
    pub classifications: Classifications,
    pub used_in: Vec<RecipeIndex>,
}

/// Two ingredients that agree in every field, the recipes compared one by one.
pub open spec fn same_ingredient(a: Ingredient, b: Ingredient) -> bool {
    &&& a.id == b.id
    &&& a.name == b.name
    &&& a.classifications == b.classifications
    &&& a.used_in@ == b.used_in@
}

/// An ingredient without identifier, name, classification or use.
pub open spec fn blank(a: Ingredient) -> bool {
    &&& a.id@.len() == 0
    &&& a.name@.len() == 0
    &&& a.classifications == (Classifications {
        dairy: false,
        meat: false,
        gluten: false,
        animal_product: false,
    })
    &&& a.used_in@.len() == 0
}

impl Clone for Ingredient {
    fn clone(&self) -> (res: Self)
        ensures
            same_ingredient(res, *self),
    {
        Ingredient {
            id: self.id.clone(),
            name: self.name.clone(),
            classifications: self.classifications,
            used_in: clone_recipe_indexes(&self.used_in),
        }
    }
}

impl Ingredient {
    /// An ingredient without identifier, name, classification or use.
    pub fn empty() -> (res: Ingredient)
        ensures
            blank(res),
    {
        Ingredient {
            id: String::new(),
            name: String::new(),
            classifications: Classifications {
                dairy: false,
                meat: false,
                gluten: false,
                animal_product: false,
            },
            used_in: Vec::new(),
        }
    }
}

/// An ingredient under edit: the ingredient as the server has it, once it has come, and
/// the draft.
#[derive(Clone, Debug, PartialEq, Eq)]
pub struct IngredientEditState {
    pub original_ingredient: Option<Ingredient>,
    pub new_ingredient: Ingredient,
}

/// What happens to an ingredient under edit.
#[derive(Clone, Debug, PartialEq, Eq)]
pub enum IngredientEditActions {
    /// The server sent the ingredient: the draft starts over from it.
    UpdateIngredient(Ingredient),
    UpdateName(String),
    ToggleDairy,
    ToggleMeat,
    ToggleGluten,
    ToggleAnimalProduct,
    /// The draft goes back to what the server sent, or to nothing where nothing came.
    Reset,
}

/// `after` is `before` but for its classifications, which are `c`.
pub open spec fn classified(before: IngredientEditState, c: Classifications, after: IngredientEditState) -> bool {
    &&& after.original_ingredient == before.original_ingredient
    &&& after.new_ingredient == (Ingredient { classifications: c, ..before.new_ingredient })
}

/// What `reduce` makes of `before` on `action`.
pub open spec fn reduced(
    before: IngredientEditState,
    action: IngredientEditActions,
    after: IngredientEditState,
) -> bool {
    let c = before.new_ingredient.classifications;
    match action {
        IngredientEditActions::UpdateIngredient(ingredient) => {
            &&& after.new_ingredient == ingredient
            &&& after.original_ingredient matches Some(o) && same_ingredient(o, ingredient)
        },
        IngredientEditActions::UpdateName(name) => {
            &&& after.original_ingredient == before.original_ingredient
            &&& after.new_ingredient == (Ingredient { name, ..before.new_ingredient })
        },
        IngredientEditActions::ToggleDairy => classified(
            before,
            Classifications { dairy: !c.dairy, ..c },
            after,
        ),
        IngredientEditActions::ToggleMeat => classified(
            before,
            Classifications { meat: !c.meat, ..c },
            after,
        ),
        IngredientEditActions::ToggleGluten => classified(
            before,
            Classifications { gluten: !c.gluten, ..c },
            after,
        ),
        IngredientEditActions::ToggleAnimalProduct => classified(
            before,
            Classifications { animal_product: !c.animal_product, ..c },
            after,
        ),
        IngredientEditActions::Reset => {
            &&& after.original_ingredient == before.original_ingredient
            &&& match before.original_ingredient {
                Some(o) => same_ingredient(after.new_ingredient, o),
                None => blank(after.new_ingredient),
            }
        },
    }
}

impl IngredientEditState {
    /// Nothing has come yet and the draft is empty.
    pub fn new() -> (state: IngredientEditState)
        ensures
            state.original_ingredient is None,
            blank(state.new_ingredient),
    {
        IngredientEditState { original_ingredient: None, new_ingredient: Ingredient::empty() }
    }

    /// The state that `action` leads to.
    pub fn reduce(self, action: IngredientEditActions) -> (after: IngredientEditState)
        ensures
            reduced(self, action, after),
    {
        let mut state = self;
        match action {
            IngredientEditActions::UpdateIngredient(ingredient) => {
                state.original_ingredient = Some(ingredient.clone());
                state.new_ingredient = ingredient;
            },
            IngredientEditActions::UpdateName(new_name) => {
                state.new_ingredient.name = new_name;
            },
            IngredientEditActions::ToggleDairy => {
                state.new_ingredient.classifications.dairy =
                !state.new_ingredient.classifications.dairy;
            },
            IngredientEditActions::ToggleMeat => {
                state.new_ingredient.classifications.meat =
                !state.new_ingredient.classifications.meat;
            },
            IngredientEditActions::ToggleGluten => {
                state.new_ingredient.classifications.gluten =
                !state.new_ingredient.classifications.gluten;
            },
            IngredientEditActions::ToggleAnimalProduct => {
                state.new_ingredient.classifications.animal_product =
                !state.new_ingredient.classifications.animal_product;
            },
            IngredientEditActions::Reset => {
                let draft = match &state.original_ingredient {
                    Some(data) => data.clone(),
                    None => Ingredient::empty(),
                };
                state.new_ingredient = draft;
            },
        }
        state
    }
}

/// The words for what an ingredient holds, in the order dairy, meat, gluten, animal
/// product, set apart by a comma and a blank.
pub open spec fn contents(c: Classifications) -> Seq<char> {
    let dairy = if c.dairy {
        "produit laitier"@
    } else {
        Seq::empty()
    };
    let meat = if c.meat {
        after_comma(dairy, "viande"@)
    } else {
        dairy
    };
    let gluten = if c.gluten {
        after_comma(meat, "gluten"@)
    } else {
        meat
    };
    if c.animal_product {
        after_comma(gluten, "produit animalier"@)
    } else {
        gluten
    }
}

/// `list` with `word` at its end, after a comma and a blank where `list` holds
/// something.
pub open spec fn after_comma(list: Seq<char>, word: Seq<char>) -> Seq<char> {
    if list.len() == 0 {
        word
    } else {
        list + ", "@ + word
    }
}

/// Appends `word` to `list`, after a comma and a blank where `list` holds something.
fn push_word(list: &mut String, word: &str)
    ensures
        final(list)@ == after_comma(old(list)@, word@),
{
    if list.as_str().unicode_len() == 0 {
        assert(list@ + word@ =~= word@);
        list.append(word);
    } else {
        list.append(", ");
        list.append(word);
    }
}

/// The line that says what an ingredient holds; none where it holds nothing of note.
pub fn contents_line(c: &Classifications) -> (line: Option<String>)
    ensures
        line is Some <==> c.dairy || c.meat || c.gluten || c.animal_product,
        line matches Some(text) ==> text@ == "Contient: "@ + contents(*c) + "."@,
{
    if !(c.dairy || c.meat || c.gluten || c.animal_product) {
        return None;
    }
    let mut list = String::new();
    if c.dairy {
        push_word(&mut list, "produit laitier");
    }
    if c.meat {
        push_word(&mut list, "viande");
    }
    if c.gluten {
        push_word(&mut list, "gluten");
    }
    if c.animal_product {
        push_word(&mut list, "produit animalier");
    }
    let mut text = String::from_str("Contient: ");
    text.append(list.as_str());
    text.append(".");
    Some(text)
}

/// The character that stands for a digit.
pub open spec fn digit_char(d: nat) -> char
    recommends
        d < 10,
{
    if d == 0 {
        '0'
    } else if d == 1 {
        '1'
    } else if d == 2 {
        '2'
    } else if d == 3 {
        '3'
    } else if d == 4 {
        '4'
    } else if d == 5 {
        '5'
    } else if d == 6 {
        '6'
    } else if d == 7 {
        '7'
    } else if d == 8 {
        '8'
    } else {
        '9'
    }
}

/// A number in decimal digits.
pub open spec fn decimal(n: nat) -> Seq<char>
    decreases n,
{
    if n < 10 {
        seq![digit_char(n)]
    } else {
        decimal(n / 10).push(digit_char(n % 10))
    }
}

/// The text of one digit.
fn digit_text(d: usize) -> (text: &'static str)
    requires
        d < 10,
    ensures
        text@ == seq![digit_char(d as nat)],
{
    proof {
        reveal_strlit("0");
        reveal_strlit("1");
        reveal_strlit("2");
        reveal_strlit("3");
        reveal_strlit("4");
        reveal_strlit("5");
        reveal_strlit("6");
        reveal_strlit("7");
        reveal_strlit("8");
        reveal_strlit("9");
    }
    let text = if d == 0 {
        "0"
    } else if d == 1 {
        "1"
    } else if d == 2 {
        "2"
    } else if d == 3 {
        "3"
    } else if d == 4 {
        "4"
    } else if d == 5 {
        "5"
    } else if d == 6 {
        "6"
    } else if d == 7 {
        "7"
    } else if d == 8 {
        "8"
    } else {
        "9"
    };
    assert(text@ =~= seq![digit_char(d as nat)]);
    text
}

/// A number in decimal digits.
pub fn decimal_text(n: usize) -> (text: String)
    ensures
        text@ == decimal(n as nat),
    decreases n,
{
    if n < 10 {
        String::from_str(digit_text(n))
    } else {
        let mut text = decimal_text(n / 10);
        let ghost before = text@;
        text.append(digit_text(n % 10));
        assert(text@ =~= before.push(digit_char((n % 10) as nat)));
        text
    }
}

/// What ends the heading over the recipes that use an ingredient.
pub open spec fn trail(n: nat) -> Seq<char> {
    if n == 0 {
        "."@
    } else if n == 1 {
        ":"@
    } else {
        "s:"@
    }
}

/// The heading over the recipes that use an ingredient, of which there are `n`.
pub fn usage_heading(n: usize) -> (text: String)
    ensures
        text@ == "Used in "@ + decimal(n as nat) + " recipe"@ + trail(n as nat),
{
    let mut text = String::from_str("Used in ");
    let digits = decimal_text(n);
    text.append(digits.as_str());
    text.append(" recipe");
    if n == 0 {
        text.append(".");
    } else if n == 1 {
        text.append(":");
    } else {
        text.append("s:");
    }
    text
}

} // verus!
