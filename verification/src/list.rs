//! The list of recipes: what it holds, which of it is shown, and the labels that narrow
//! it down.

use crate::graph::{first_index, ids};
use crate::model::{clone_strings, Id, LabelIndex, RecipeIndex};
use crate::sorting::{arranged, sort_by_keys};
use crate::text::{contains_text, occurs_in, simplified, simplify_name};
use vstd::prelude::*;

verus! {

/// What the address of the list of recipes asks for.
#[derive(Clone, Debug, PartialEq, Eq)]
pub struct Filters {
    /// The names of the labels that are selected.
    pub labels: Vec<String>,
    pub restrictions: String,
    pub name: String,
}

/// What happens to the list of recipes.
#[derive(Clone, Debug, PartialEq, Eq)]
pub enum RecipeListAction {
    UpdateRecipes(Vec<RecipeIndex>),
    UpdateLabels(Vec<LabelIndex>),
    UpdatePattern(String),
}

/// The list of recipes.
#[derive(Clone, Debug, PartialEq, Eq)]
pub struct RecipeListState {
    pub recipes: Vec<RecipeIndex>,
    pub labels: Vec<LabelIndex>,
    pub pattern: String,
}

impl RecipeListState {
    /// The empty list.
    pub fn new() -> (state: RecipeListState)
        ensures
            state.recipes@.len() == 0,
            state.labels@.len() == 0,
            state.pattern@.len() == 0,
    {
        RecipeListState { recipes: Vec::new(), labels: Vec::new(), pattern: String::new() }
    }

    /// The list with what `action` brings in place of what it held.
    pub fn reduce(self, action: RecipeListAction) -> (after: RecipeListState)
        ensures
            after == match action {
                RecipeListAction::UpdateRecipes(list) => RecipeListState { recipes: list, ..self },
                RecipeListAction::UpdateLabels(set) => RecipeListState { labels: set, ..self },
                RecipeListAction::UpdatePattern(string) => RecipeListState {
                    pattern: string,
                    ..self
                },
            },
    {
        match action {
            RecipeListAction::UpdateRecipes(list) => RecipeListState {
                recipes: list,
                labels: self.labels,
                pattern: self.pattern,
            },
            RecipeListAction::UpdateLabels(set) => RecipeListState {
                recipes: self.recipes,
                labels: set,
                pattern: self.pattern,
            },
            RecipeListAction::UpdatePattern(string) => RecipeListState {
                recipes: self.recipes,
                labels: self.labels,
                pattern: string,
            },
        }
    }
}

/// The names by which recipes are ordered and searched.
pub open spec fn recipe_keys(v: Seq<RecipeIndex>) -> Seq<Seq<char>> {
    v.map_values(|r: RecipeIndex| simplified(r.name@))
}

/// The name of each recipe as it is compared and searched.
fn simple_names(recipes: &Vec<RecipeIndex>) -> (keys: Vec<String>)
    ensures
        keys.len() == recipes.len(),
        ids(keys@) == recipe_keys(recipes@),
{
    let mut keys: Vec<String> = Vec::new();
    let mut i: usize = 0;
    while i < recipes.len()
        invariant
            i <= recipes.len(),
            keys.len() == i,
            forall|k: int| 0 <= k < i ==> (#[trigger] keys@[k])@ == simplified(recipes@[k].name@),
        decreases recipes.len() - i,
    {
        keys.push(simplify_name(recipes[i].name.as_str()));
        i += 1;
    }
    assert(ids(keys@) =~= recipe_keys(recipes@));
    keys
}

/// The recipes in the order of their names, accents and case set aside; recipes whose
/// names are then the same keep their order.
pub fn sort_recipes<'a>(recipes: &'a Vec<RecipeIndex>) -> (out: Vec<&'a RecipeIndex>)
    ensures
        arranged(recipes@, recipe_keys(recipes@), out@.unref()),
{
    let keys = simple_names(recipes);
    sort_by_keys(recipes, &keys)
}

/// The recipes at whose place `keys` holds a text in which `pattern` occurs.
pub open spec fn picked(recipes: Seq<RecipeIndex>, keys: Seq<Seq<char>>, pattern: Seq<char>) -> Seq<
    RecipeIndex,
>
    recommends
        keys.len() == recipes.len(),
    decreases recipes.len(),
{
    if recipes.len() == 0 {
        Seq::empty()
    } else {
        let found = picked(recipes.drop_last(), keys.drop_last(), pattern);
        if occurs_in(pattern, keys.last()) {
            found.push(recipes.last())
        } else {
            found
        }
    }
}

/// Picking recipes by their simplified names is keeping those in whose simplified name
/// the pattern occurs.
pub proof fn lemma_picked_by_name(recipes: Seq<RecipeIndex>, pattern: Seq<char>)
    ensures
        picked(recipes, recipe_keys(recipes), pattern) == recipes.filter(
            |r: RecipeIndex| occurs_in(pattern, simplified(r.name@)),
        ),
    decreases recipes.len(),
{
    let pred = |r: RecipeIndex| occurs_in(pattern, simplified(r.name@));
    reveal(Seq::filter);
    if recipes.len() == 0 {
        assert(recipes.filter(pred) =~= Seq::<RecipeIndex>::empty());
    } else {
        lemma_picked_by_name(recipes.drop_last(), pattern);
        assert(recipe_keys(recipes).drop_last() =~= recipe_keys(recipes.drop_last()));
        assert(recipe_keys(recipes).last() == simplified(recipes.last().name@));
    }
}

/// The recipes at whose place `keys` holds a text in which `pattern` occurs.
pub fn pick_by_key(recipes: &Vec<RecipeIndex>, keys: &Vec<String>, pattern: &str) -> (out: Vec<
    RecipeIndex,
>)
    requires
        keys.len() == recipes.len(),
    ensures
        out@ == picked(recipes@, ids(keys@), pattern@),
{
    let mut out: Vec<RecipeIndex> = Vec::new();
    let mut i: usize = 0;
    proof {
        assert(recipes@.take(0) =~= Seq::<RecipeIndex>::empty());
    }
    while i < recipes.len()
        invariant
            i <= recipes.len(),
            keys.len() == recipes.len(),
            out@ == picked(recipes@.take(i as int), ids(keys@).take(i as int), pattern@),
        decreases recipes.len() - i,
    {
        proof {
            let upto = recipes@.take(i + 1);
            let keys_upto = ids(keys@).take(i + 1);
            assert(upto.drop_last() =~= recipes@.take(i as int));
            assert(keys_upto.drop_last() =~= ids(keys@).take(i as int));
            assert(upto.last() == recipes@[i as int]);
            assert(keys_upto.last() == keys@[i as int]@);
        }
        if contains_text(keys[i].as_str(), pattern) {
            out.push(recipes[i].clone());
        }
        i += 1;
    }
    proof {
        assert(recipes@.take(i as int) =~= recipes@);
        assert(ids(keys@).take(i as int) =~= ids(keys@));
    }
    out
}

/// The recipes in whose name, accents and case set aside, `pattern` occurs.
pub fn visible_recipes(recipes: &Vec<RecipeIndex>, pattern: &str) -> (out: Vec<RecipeIndex>)
    ensures
        out@ == recipes@.filter(|r: RecipeIndex| occurs_in(pattern@, simplified(r.name@))),
{
    let keys = simple_names(recipes);
    proof {
        lemma_picked_by_name(recipes@, pattern@);
    }
    pick_by_key(recipes, &keys, pattern)
}

/// The names of a list of labels, in order.
pub open spec fn label_names(v: Seq<LabelIndex>) -> Seq<Seq<char>> {
    v.map_values(|l: LabelIndex| l.name@)
}

/// Of the labels `labels`, the first of each name in `names`, in the order of `names`,
/// none twice.
pub open spec fn picked_labels(labels: Seq<LabelIndex>, names: Seq<Seq<char>>) -> Seq<LabelIndex>
    decreases names.len(),
{
    if names.len() == 0 {
        Seq::empty()
    } else {
        let found = picked_labels(labels, names.drop_last());
        let name = names.last();
        if label_names(labels).contains(name) && !label_names(found).contains(name) {
            found.push(labels[first_index(label_names(labels), name)])
        } else {
            found
        }
    }
}

/// The place of the first label named `name`.
fn find_label(labels: &Vec<LabelIndex>, name: &String) -> (place: Option<usize>)
    ensures
        place is Some <==> label_names(labels@).contains(name@),
        place matches Some(i) ==> i == first_index(label_names(labels@), name@) && i
            < labels.len(),
{
    let mut i: usize = 0;
    while i < labels.len()
        invariant
            i <= labels.len(),
            forall|k: int| 0 <= k < i ==> label_names(labels@)[k] != name@,
        decreases labels.len() - i,
    {
        if labels[i].name == *name {
            proof {
                let s = label_names(labels@);
                assert(s[i as int] == name@);
                let f = first_index(s, name@);
                assert(0 <= f < s.len() && s[f] == name@ && forall|k: int|
                    0 <= k < f ==> s[k] != name@);
                assert(f == i);
            }
            return Some(i);
        }
        i += 1;
    }
    proof {
        if label_names(labels@).contains(name@) {
            let k = choose|k: int|
                0 <= k < label_names(labels@).len() && label_names(labels@)[k] == name@;
            assert(false);
        }
    }
    None
}

/// The labels that the names `names` select among `labels`.
pub fn selected_labels(labels: &Vec<LabelIndex>, names: &Vec<String>) -> (out: Vec<LabelIndex>)
    ensures
        out@ == picked_labels(labels@, ids(names@)),
{
    let mut out: Vec<LabelIndex> = Vec::new();
    let mut i: usize = 0;
    assert(ids(names@).take(0) =~= Seq::<Seq<char>>::empty());
    while i < names.len()
        invariant
            i <= names.len(),
            out@ == picked_labels(labels@, ids(names@).take(i as int)),
        decreases names.len() - i,
    {
        let ghost upto = ids(names@).take(i + 1);
        assert(upto.drop_last() =~= ids(names@).take(i as int));
        assert(upto.last() == names@[i as int]@);
        match find_label(labels, &names[i]) {
            Some(p) => {
                if find_label(&out, &names[i]).is_none() {
                    out.push(labels[p].clone());
                }
            },
            None => {},
        }
        i += 1;
    }
    assert(ids(names@).take(i as int) =~= ids(names@));
    out
}

/// The labels in the order of their names; labels of one name keep their order.
pub fn sort_labels<'a>(labels: &'a Vec<LabelIndex>) -> (out: Vec<&'a LabelIndex>)
    ensures
        arranged(labels@, label_names(labels@), out@.unref()),
{
    let mut keys: Vec<String> = Vec::new();
    let mut i: usize = 0;
    while i < labels.len()
        invariant
            i <= labels.len(),
            keys.len() == i,
            forall|k: int| 0 <= k < i ==> (#[trigger] keys@[k])@ == labels@[k].name@,
        decreases labels.len() - i,
    {
        keys.push(labels[i].name.clone());
        i += 1;
    }
    assert(ids(keys@) =~= label_names(labels@));
    sort_by_keys(labels, &keys)
}

/// The selection with `name` taken out where it was in, at its first place, and added
/// at the end where it was not.
pub open spec fn toggled(selected: Seq<String>, name: String) -> Seq<String> {
    if ids(selected).contains(name@) {
        selected.remove(first_index(ids(selected), name@))
    } else {
        selected.push(name)
    }
}

/// The selection once the label `name` has been clicked.
pub fn toggle_label(selected: &Vec<String>, name: &String) -> (out: Vec<String>)
    ensures
        out@ == toggled(selected@, *name),
{
    let mut out = clone_strings(selected);
    let mut i: usize = 0;
    while i < out.len()
        invariant
            i <= out.len(),
            out@ == selected@,
            forall|k: int| 0 <= k < i ==> ids(selected@)[k] != name@,
        decreases out.len() - i,
    {
        if out[i] == *name {
            proof {
                let s = ids(selected@);
                assert(s[i as int] == name@);
                let f = first_index(s, name@);
                assert(0 <= f < s.len() && s[f] == name@ && forall|k: int|
                    0 <= k < f ==> s[k] != name@);
                assert(f == i);
            }
            out.remove(i);
            return out;
        }
        i += 1;
    }
    proof {
        if ids(selected@).contains(name@) {
            let k = choose|k: int| 0 <= k < ids(selected@).len() && ids(selected@)[k] == name@;
            assert(false);
        }
    }
    out.push(name.clone());
    out
}

/// The names of a list of recipes, in order.
pub open spec fn recipe_names(v: Seq<RecipeIndex>) -> Seq<Seq<char>> {
    v.map_values(|r: RecipeIndex| r.name@)
}

/// The recipes in the order of their names as they are written; recipes of one name
/// keep their order.
pub fn sort_recipes_by_name<'a>(recipes: &'a Vec<RecipeIndex>) -> (out: Vec<&'a RecipeIndex>)
    ensures
        arranged(recipes@, recipe_names(recipes@), out@.unref()),
{
    let mut keys: Vec<String> = Vec::new();
    let mut i: usize = 0;
    while i < recipes.len()
        invariant
            i <= recipes.len(),
            keys.len() == i,
            forall|k: int| 0 <= k < i ==> (#[trigger] keys@[k])@ == recipes@[k].name@,
        decreases recipes.len() - i,
    {
        keys.push(recipes[i].name.clone());
        i += 1;
    }
    assert(ids(keys@) =~= recipe_names(recipes@));
    sort_by_keys(recipes, &keys)
}

/// What tells one recipe of a list from another.
pub open spec fn recipe_key(r: RecipeIndex) -> (Id, Seq<char>) {
    (r.id@, r.name@)
}

/// What tells the recipes of a list apart, in order.
pub open spec fn recipe_key_list(v: Seq<RecipeIndex>) -> Seq<(Id, Seq<char>)> {
    v.map_values(|r: RecipeIndex| recipe_key(r))
}

/// `found` followed by the recipes of `more` that are not there yet, each once, in the
/// order in which they first occur.
pub open spec fn with_new(found: Seq<RecipeIndex>, more: Seq<RecipeIndex>) -> Seq<RecipeIndex>
    decreases more.len(),
{
    if more.len() == 0 {
        found
    } else {
        let before = with_new(found, more.drop_last());
        if recipe_key_list(before).contains(recipe_key(more.last())) {
            before
        } else {
            before.push(more.last())
        }
    }
}

/// The recipes `all`, each once, in the order in which they first occur.
pub open spec fn each_once(all: Seq<RecipeIndex>) -> Seq<RecipeIndex> {
    with_new(Seq::empty(), all)
}

/// Adding recipes once adds each recipe of `more` that `found` lacks and nothing else,
/// and no recipe twice.
pub proof fn lemma_with_new(found: Seq<RecipeIndex>, more: Seq<RecipeIndex>)
    ensures
        recipe_key_list(found).no_duplicates() ==> recipe_key_list(
            with_new(found, more),
        ).no_duplicates(),
        forall|k: (Id, Seq<char>)| #[trigger]
            recipe_key_list(with_new(found, more)).contains(k) <==> recipe_key_list(
                found,
            ).contains(k) || recipe_key_list(more).contains(k),
    decreases more.len(),
{
    let out = with_new(found, more);
    if more.len() == 0 {
        assert(recipe_key_list(more) =~= Seq::<(Id, Seq<char>)>::empty());
    } else {
        let most = more.drop_last();
        let before = with_new(found, most);
        let last = more.last();
        lemma_with_new(found, most);
        assert forall|k: (Id, Seq<char>)| #[trigger]
            recipe_key_list(out).contains(k) <==> recipe_key_list(found).contains(k)
                || recipe_key_list(more).contains(k) by {
            if recipe_key_list(out).contains(k) {
                let i = choose|i: int|
                    0 <= i < recipe_key_list(out).len() && recipe_key_list(out)[i] == k;
                if i < before.len() {
                    assert(recipe_key_list(before)[i] == k);
                    assert(recipe_key_list(before).contains(k));
                    if recipe_key_list(most).contains(k) {
                        let m = choose|m: int|
                            0 <= m < recipe_key_list(most).len() && recipe_key_list(most)[m] == k;
                        assert(recipe_key_list(more)[m] == k);
                    }
                } else {
                    assert(recipe_key_list(more)[more.len() - 1] == k);
                }
            }
            if recipe_key_list(found).contains(k) {
                assert(recipe_key_list(before).contains(k));
                let i = choose|i: int|
                    0 <= i < recipe_key_list(before).len() && recipe_key_list(before)[i] == k;
                assert(recipe_key_list(out)[i] == k);
            }
            if recipe_key_list(more).contains(k) {
                let m = choose|m: int|
                    0 <= m < recipe_key_list(more).len() && recipe_key_list(more)[m] == k;
                if m < most.len() {
                    assert(recipe_key_list(most)[m] == k);
                    assert(recipe_key_list(before).contains(k));
                    let i = choose|i: int|
                        0 <= i < recipe_key_list(before).len() && recipe_key_list(before)[i] == k;
                    assert(recipe_key_list(out)[i] == k);
                } else {
                    assert(k == recipe_key(last));
                    if recipe_key_list(before).contains(k) {
                        let i = choose|i: int|
                            0 <= i < recipe_key_list(before).len() && recipe_key_list(before)[i]
                                == k;
                        assert(recipe_key_list(out)[i] == k);
                    } else {
                        assert(recipe_key_list(out)[before.len() as int] == k);
                    }
                }
            }
        }
        if recipe_key_list(found).no_duplicates() {
            let keys = recipe_key_list(out);
            assert forall|a: int, b: int|
                0 <= a < keys.len() && 0 <= b < keys.len() && a != b implies keys[a] != keys[b] by {
                let old_keys = recipe_key_list(before);
                if a < before.len() && b < before.len() {
                    assert(old_keys[a] != old_keys[b]);
                } else if a < before.len() {
                    assert(old_keys[a] == keys[a]);
                    assert(old_keys.contains(old_keys[a]));
                } else {
                    assert(old_keys[b] == keys[b]);
                    assert(old_keys.contains(old_keys[b]));
                }
            }
        }
    }
}

/// The recipes that carry any of the labels are there once each: a recipe is among them
/// if and only if one of the lists holds it.
pub proof fn lemma_union_is_a_set(lists: Seq<Vec<RecipeIndex>>)
    ensures
        recipe_key_list(each_once(all_recipes(lists))).no_duplicates(),
        forall|k: (Id, Seq<char>)| #[trigger]
            recipe_key_list(each_once(all_recipes(lists))).contains(k) <==> recipe_key_list(
                all_recipes(lists),
            ).contains(k),
{
    lemma_with_new(Seq::empty(), all_recipes(lists));
    assert(recipe_key_list(Seq::<RecipeIndex>::empty()) =~= Seq::<(Id, Seq<char>)>::empty());
}

/// Adding the recipes of two lists in turn is adding those of the two lists joined.
pub proof fn lemma_with_new_twice(found: Seq<RecipeIndex>, a: Seq<RecipeIndex>, b: Seq<RecipeIndex>)
    ensures
        with_new(with_new(found, a), b) == with_new(found, a + b),
    decreases b.len(),
{
    if b.len() == 0 {
        assert(a + b =~= a);
    } else {
        lemma_with_new_twice(found, a, b.drop_last());
        assert((a + b).drop_last() =~= a + b.drop_last());
        assert((a + b).last() == b.last());
    }
}

/// The recipes of all the lists, one list after the other.
pub open spec fn all_recipes(lists: Seq<Vec<RecipeIndex>>) -> Seq<RecipeIndex> {
    lists.flat_map(|v: Vec<RecipeIndex>| v@)
}

/// `r` is in each of the lists.
pub open spec fn in_each(lists: Seq<Vec<RecipeIndex>>, r: RecipeIndex) -> bool {
    forall|k: int|
        0 <= k < lists.len() ==> recipe_key_list((#[trigger] lists[k])@).contains(recipe_key(r))
}

/// The recipes that are in each of the lists, each once, in the order of the first list.
pub open spec fn common_recipes(lists: Seq<Vec<RecipeIndex>>) -> Seq<RecipeIndex> {
    if lists.len() == 0 {
        Seq::empty()
    } else {
        each_once(lists[0]@).filter(|r: RecipeIndex| in_each(lists, r))
    }
}

/// Whether `v` holds the recipe `r`.
fn holds_recipe(v: &Vec<RecipeIndex>, r: &RecipeIndex) -> (found: bool)
    ensures
        found == recipe_key_list(v@).contains(recipe_key(*r)),
{
    let mut i: usize = 0;
    while i < v.len()
        invariant
            i <= v.len(),
            forall|k: int| 0 <= k < i ==> recipe_key_list(v@)[k] != recipe_key(*r),
        decreases v.len() - i,
    {
        if v[i].id == r.id && v[i].name == r.name {
            assert(recipe_key_list(v@)[i as int] == recipe_key(*r));
            return true;
        }
        i += 1;
    }
    false
}

/// Adds to `out` the recipes of `more` that it does not hold yet.
fn add_once(out: &mut Vec<RecipeIndex>, more: &Vec<RecipeIndex>)
    ensures
        final(out)@ == with_new(old(out)@, more@),
{
    let ghost start = out@;
    let mut j: usize = 0;
    assert(more@.take(0) =~= Seq::<RecipeIndex>::empty());
    while j < more.len()
        invariant
            j <= more.len(),
            out@ == with_new(start, more@.take(j as int)),
        decreases more.len() - j,
    {
        let ghost next = more@.take(j + 1);
        assert(next.drop_last() =~= more@.take(j as int));
        assert(next.last() == more@[j as int]);
        if !holds_recipe(out, &more[j]) {
            out.push(more[j].clone());
        }
        j += 1;
    }
    assert(more@.take(j as int) =~= more@);
}

/// The recipes that carry any of the labels, where `lists` holds for each label the
/// recipes that carry it: each recipe once, in the order in which it first occurs.
pub fn union_recipes(lists: &Vec<Vec<RecipeIndex>>) -> (out: Vec<RecipeIndex>)
    ensures
        out@ == each_once(all_recipes(lists@)),
{
    let ghost f = |v: Vec<RecipeIndex>| v@;
    let mut out: Vec<RecipeIndex> = Vec::new();
    let mut i: usize = 0;
    proof {
        assert(lists@.take(0) =~= Seq::<Vec<RecipeIndex>>::empty());
        assert(all_recipes(lists@.take(0)) =~= Seq::<RecipeIndex>::empty()) by {
            assert(lists@.take(0).map_values(f) =~= Seq::<Seq<RecipeIndex>>::empty());
        }
    }
    while i < lists.len()
        invariant
            i <= lists.len(),
            out@ == each_once(all_recipes(lists@.take(i as int))),
        decreases lists.len() - i,
    {
        proof {
            lists@.lemma_flat_map_take_append(|v: Vec<RecipeIndex>| v@, i as int);
            lemma_with_new_twice(
                Seq::empty(),
                all_recipes(lists@.take(i as int)),
                lists@[i as int]@,
            );
        }
        add_once(&mut out, &lists[i]);
        i += 1;
    }
    assert(lists@.take(i as int) =~= lists@);
    out
}

/// The recipes that carry all of the labels, where `lists` holds for each label the
/// recipes that carry it: each recipe once, in the order of the first list. No label,
/// no recipe.
pub fn intersect_recipes(lists: &Vec<Vec<RecipeIndex>>) -> (out: Vec<RecipeIndex>)
    ensures
        out@ == common_recipes(lists@),
{
    let mut out: Vec<RecipeIndex> = Vec::new();
    if lists.len() == 0 {
        return out;
    }
    let mut first: Vec<RecipeIndex> = Vec::new();
    add_once(&mut first, &lists[0]);
    let ghost pred = |r: RecipeIndex| in_each(lists@, r);
    let mut i: usize = 0;
    assert(first@.take(0).filter(pred) =~= Seq::<RecipeIndex>::empty()) by {
        reveal(Seq::filter);
    }
    while i < first.len()
        invariant
            i <= first.len(),
            pred == |r: RecipeIndex| in_each(lists@, r),
            out@ == first@.take(i as int).filter(pred),
        decreases first.len() - i,
    {
        proof {
            first@.lemma_take_succ_push(i as int);
            first@.take(i as int).lemma_filter_push(first@[i as int], pred);
        }
        let mut everywhere = true;
        let mut k: usize = 0;
        while k < lists.len()
            invariant
                k <= lists.len(),
                i < first.len(),
                everywhere == forall|m: int|
                    0 <= m < k ==> recipe_key_list((#[trigger] lists@[m])@).contains(
                        recipe_key(first@[i as int]),
                    ),
            decreases lists.len() - k,
        {
            if !holds_recipe(&lists[k], &first[i]) {
                everywhere = false;
            }
            k += 1;
        }
        if everywhere {
            out.push(first[i].clone());
        }
        i += 1;
    }
    assert(first@.take(i as int) =~= first@);
    out
}

} // verus!
