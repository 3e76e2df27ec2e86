//! Editing a recipe: the draft beside the recipe as the server has it, and the requests
//! that turn the one into the other.

use crate::graph::{first_index, ids};
use crate::model::{
    same_recipe, Dependency, Id, IngredientIndex, LabelIndex, Recipe, RecipeIndex, Requirement,
};
use vstd::prelude::*;

verus! {

/// The ingredients that a list of requirements asks for, in order.
pub open spec fn ingredient_ids(v: Seq<Requirement>) -> Seq<Id> {
    v.map_values(|q: Requirement| q.ingredient.id@)
}

/// The first requirement of `v` for the ingredient `id`.
pub open spec fn requirement_for(v: Seq<Requirement>, id: Id) -> Requirement
    recommends
        ingredient_ids(v).contains(id),
{
    v[first_index(ingredient_ids(v), id)]
}

/// Two requirements ask for the same quantity, both optional or both not.
pub open spec fn same_terms(a: Requirement, b: Requirement) -> bool {
    a.quantity@ == b.quantity@ && a.optional == b.optional
}

/// `q` asks for an ingredient that `other` does not mention.
pub open spec fn is_absent(other: Seq<Requirement>, q: Requirement) -> bool {
    !ingredient_ids(other).contains(q.ingredient.id@)
}

/// `q` asks for an ingredient that `original` asks for too, on other terms.
pub open spec fn is_changed(original: Seq<Requirement>, q: Requirement) -> bool {
    ingredient_ids(original).contains(q.ingredient.id@) && !same_terms(
        requirement_for(original, q.ingredient.id@),
        q,
    )
}

/// The requirements of the draft whose ingredient the saved recipe does not ask for.
pub open spec fn added_requirements(original: Seq<Requirement>, edited: Seq<Requirement>) -> Seq<
    Requirement,
> {
    edited.filter(|q: Requirement| is_absent(original, q))
}

/// The requirements of the saved recipe whose ingredient the draft no longer asks for.
pub open spec fn removed_requirements(original: Seq<Requirement>, edited: Seq<Requirement>) -> Seq<
    Requirement,
> {
    original.filter(|q: Requirement| is_absent(edited, q))
}

/// The requirements of the draft whose ingredient the saved recipe asks for on other
/// terms.
pub open spec fn updated_requirements(original: Seq<Requirement>, edited: Seq<Requirement>) -> Seq<
    Requirement,
> {
    edited.filter(|q: Requirement| is_changed(original, q))
}

/// What separates the requirements of a draft from those of the original.
#[derive(Clone, Debug, PartialEq, Eq)]
pub struct RequirementDiff {
    pub added: Vec<Requirement>,
    pub removed: Vec<Requirement>,
    pub updated: Vec<Requirement>,
}

/// The place of the first requirement of `v` for the ingredient `id`.
pub fn find_requirement(v: &Vec<Requirement>, id: &String) -> (place: Option<usize>)
    ensures
        place is Some <==> ingredient_ids(v@).contains(id@),
        place matches Some(i) ==> i < v.len() && v[i as int] == requirement_for(v@, id@),
{
    let mut i: usize = 0;
    while i < v.len()
        invariant
            i <= v.len(),
            forall|k: int| 0 <= k < i ==> ingredient_ids(v@)[k] != id@,
        decreases v.len() - i,
    {
        if v[i].ingredient.id == *id {
            proof {
                let s = ingredient_ids(v@);
                assert(s[i as int] == id@);
                assert(s.contains(id@));
                let f = first_index(s, id@);
                assert(0 <= f < s.len() && s[f] == id@ && forall|k: int|
                    0 <= k < f ==> s[k] != id@);
                assert(f == i);
            }
            return Some(i);
        }
        i += 1;
    }
    proof {
        if ingredient_ids(v@).contains(id@) {
            let k = choose|k: int|
                0 <= k < ingredient_ids(v@).len() && ingredient_ids(v@)[k] == id@;
            assert(false);
        }
    }
    None
}

/// The requirements of `from` whose ingredient `other` does not mention.
fn absent_from(from: &Vec<Requirement>, other: &Vec<Requirement>) -> (out: Vec<Requirement>)
    ensures
        out@ == from@.filter(|q: Requirement| is_absent(other@, q)),
{
    let ghost pred = |q: Requirement| is_absent(other@, q);
    let mut out: Vec<Requirement> = Vec::new();
    let mut i: usize = 0;
    assert(from@.take(0).filter(pred) =~= Seq::<Requirement>::empty()) by {
        reveal(Seq::filter);
    }
    while i < from.len()
        invariant
            i <= from.len(),
            pred == |q: Requirement| is_absent(other@, q),
            out@ == from@.take(i as int).filter(pred),
        decreases from.len() - i,
    {
        proof {
            from@.lemma_take_succ_push(i as int);
            from@.take(i as int).lemma_filter_push(from@[i as int], pred);
        }
        if find_requirement(other, &from[i].ingredient.id).is_none() {
            out.push(from[i].clone());
        }
        i += 1;
    }
    assert(from@.take(i as int) =~= from@);
    out
}

/// What separates the requirements `edited` from the requirements `original`: what is
/// new, what is gone, and what stays on other terms, an ingredient standing for its
/// requirement.
pub fn diff_requirements(original: &Vec<Requirement>, edited: &Vec<Requirement>) -> (diff:
    RequirementDiff)
    ensures
        diff.added@ == added_requirements(original@, edited@),
        diff.removed@ == removed_requirements(original@, edited@),
        diff.updated@ == updated_requirements(original@, edited@),
{
    let added = absent_from(edited, original);
    let removed = absent_from(original, edited);
    let ghost pred = |q: Requirement| is_changed(original@, q);
    let mut updated: Vec<Requirement> = Vec::new();
    let mut i: usize = 0;
    assert(edited@.take(0).filter(pred) =~= Seq::<Requirement>::empty()) by {
        reveal(Seq::filter);
    }
    while i < edited.len()
        invariant
            i <= edited.len(),
            pred == |q: Requirement| is_changed(original@, q),
            updated@ == edited@.take(i as int).filter(pred),
        decreases edited.len() - i,
    {
        proof {
            edited@.lemma_take_succ_push(i as int);
            edited@.take(i as int).lemma_filter_push(edited@[i as int], pred);
        }
        let q = &edited[i];
        match find_requirement(original, &q.ingredient.id) {
            Some(k) => {
                let was = &original[k];
                if !(was.quantity == q.quantity && was.optional == q.optional) {
                    updated.push(q.clone());
                }
            },
            None => {},
        }
        i += 1;
    }
    assert(edited@.take(i as int) =~= edited@);
    RequirementDiff { added, removed, updated }
}

/// What tells one label from another.
pub open spec fn label_key(t: LabelIndex) -> (Id, Seq<char>) {
    (t.id@, t.name@)
}

/// What tells the labels of a list apart, in order.
pub open spec fn label_keys(v: Seq<LabelIndex>) -> Seq<(Id, Seq<char>)> {
    v.map_values(|o: LabelIndex| label_key(o))
}

/// `other` holds no label equal to `t`.
pub open spec fn lacks_label(other: Seq<LabelIndex>, t: LabelIndex) -> bool {
    !label_keys(other).contains(label_key(t))
}

/// The labels of `from` that `other` does not hold.
pub open spec fn labels_beyond(from: Seq<LabelIndex>, other: Seq<LabelIndex>) -> Seq<LabelIndex> {
    from.filter(|t: LabelIndex| lacks_label(other, t))
}

/// What tells one dependency from another.
pub open spec fn dependency_key(d: Dependency) -> (Id, Seq<char>, bool) {
    (d.recipe.id@, d.quantity@, d.optional)
}

/// `other` holds no dependency on the same recipe on the same terms as `d`.
pub open spec fn lacks_dependency(other: Seq<Dependency>, d: Dependency) -> bool {
    !other.map_values(|o: Dependency| dependency_key(o)).contains(dependency_key(d))
}

/// The dependencies of `from` that `other` does not hold.
pub open spec fn dependencies_beyond(from: Seq<Dependency>, other: Seq<Dependency>) -> Seq<
    Dependency,
> {
    from.filter(|d: Dependency| lacks_dependency(other, d))
}

/// Whether `v` holds a label equal to `t`.
fn holds_label(v: &Vec<LabelIndex>, t: &LabelIndex) -> (found: bool)
    ensures
        found == !lacks_label(v@, *t),
{
    let ghost keys = label_keys(v@);
    let mut i: usize = 0;
    while i < v.len()
        invariant
            i <= v.len(),
            keys == label_keys(v@),
            forall|k: int| 0 <= k < i ==> keys[k] != label_key(*t),
        decreases v.len() - i,
    {
        if v[i].id == t.id && v[i].name == t.name {
            assert(keys[i as int] == label_key(*t));
            return true;
        }
        i += 1;
    }
    false
}

/// Whether `v` holds a dependency on the same recipe on the same terms as `d`.
fn holds_dependency(v: &Vec<Dependency>, d: &Dependency) -> (found: bool)
    ensures
        found == !lacks_dependency(v@, *d),
{
    let ghost keys = v@.map_values(|o: Dependency| dependency_key(o));
    let mut i: usize = 0;
    while i < v.len()
        invariant
            i <= v.len(),
            keys == v@.map_values(|o: Dependency| dependency_key(o)),
            forall|k: int| 0 <= k < i ==> keys[k] != dependency_key(*d),
        decreases v.len() - i,
    {
        if v[i].recipe.id == d.recipe.id && v[i].quantity == d.quantity && v[i].optional
            == d.optional {
            assert(keys[i as int] == dependency_key(*d));
            return true;
        }
        i += 1;
    }
    false
}

/// The labels of `from` that `other` does not hold.
pub fn diff_labels(from: &Vec<LabelIndex>, other: &Vec<LabelIndex>) -> (out: Vec<LabelIndex>)
    ensures
        out@ == labels_beyond(from@, other@),
{
    let ghost pred = |t: LabelIndex| lacks_label(other@, t);
    let mut out: Vec<LabelIndex> = Vec::new();
    let mut i: usize = 0;
    assert(from@.take(0).filter(pred) =~= Seq::<LabelIndex>::empty()) by {
        reveal(Seq::filter);
    }
    while i < from.len()
        invariant
            i <= from.len(),
            pred == |t: LabelIndex| lacks_label(other@, t),
            out@ == from@.take(i as int).filter(pred),
        decreases from.len() - i,
    {
        proof {
            from@.lemma_take_succ_push(i as int);
            from@.take(i as int).lemma_filter_push(from@[i as int], pred);
        }
        if !holds_label(other, &from[i]) {
            out.push(from[i].clone());
        }
        i += 1;
    }
    assert(from@.take(i as int) =~= from@);
    out
}

/// The dependencies of `from` that `other` does not hold.
pub fn diff_dependencies(from: &Vec<Dependency>, other: &Vec<Dependency>) -> (out: Vec<
    Dependency,
>)
    ensures
        out@ == dependencies_beyond(from@, other@),
{
    let ghost pred = |d: Dependency| lacks_dependency(other@, d);
    let mut out: Vec<Dependency> = Vec::new();
    let mut i: usize = 0;
    assert(from@.take(0).filter(pred) =~= Seq::<Dependency>::empty()) by {
        reveal(Seq::filter);
    }
    while i < from.len()
        invariant
            i <= from.len(),
            pred == |d: Dependency| lacks_dependency(other@, d),
            out@ == from@.take(i as int).filter(pred),
        decreases from.len() - i,
    {
        proof {
            from@.lemma_take_succ_push(i as int);
            from@.take(i as int).lemma_filter_push(from@[i as int], pred);
        }
        if !holds_dependency(other, &from[i]) {
            out.push(from[i].clone());
        }
        i += 1;
    }
    assert(from@.take(i as int) =~= from@);
    out
}

/// One request to the server on behalf of the recipe being edited.
#[derive(Clone, Debug, PartialEq, Eq)]
pub enum EditRequest {
    DeleteRequirement { ingredient: String },
    CreateRequirement { ingredient: String, quantity: String, optional: bool },
    UpdateRequirement { ingredient: String, quantity: String, optional: bool },
    DeleteDependency { recipe: String },
    CreateDependency { recipe: String, quantity: String, optional: bool },
    /// Takes the label with this identifier off the recipe.
    Untag { label: String },
    /// Puts the label of this name on the recipe.
    Tag { name: String },
    UpdateRecipe { name: String, author: String, directions: String },
}

/// What a request does with the thing it names.
#[derive(Clone, Copy, Debug, PartialEq, Eq, Structural)]
pub enum Change {
    Delete,
    Create,
    Update,
}

/// The request that makes the change `change` to the requirement `q`.
pub open spec fn requirement_request(change: Change, q: Requirement) -> EditRequest {
    match change {
        Change::Delete => EditRequest::DeleteRequirement { ingredient: q.ingredient.id },
        Change::Create => EditRequest::CreateRequirement {
            ingredient: q.ingredient.id,
            quantity: q.quantity,
            optional: q.optional,
        },
        Change::Update => EditRequest::UpdateRequirement {
            ingredient: q.ingredient.id,
            quantity: q.quantity,
            optional: q.optional,
        },
    }
}

/// The request that creates the dependency `d`, or the one that deletes it.
pub open spec fn dependency_request(create: bool, d: Dependency) -> EditRequest {
    if create {
        EditRequest::CreateDependency {
            recipe: d.recipe.id,
            quantity: d.quantity,
            optional: d.optional,
        }
    } else {
        EditRequest::DeleteDependency { recipe: d.recipe.id }
    }
}

/// The request that puts the label `t` on the recipe, or the one that takes it off.
pub open spec fn label_request(tag: bool, t: LabelIndex) -> EditRequest {
    if tag {
        EditRequest::Tag { name: t.name }
    } else {
        EditRequest::Untag { label: t.id }
    }
}

/// The requests that save the draft `edited` of the recipe `original`, in the order in
/// which they are sent: requirements that go, that come and that change; dependencies
/// that go and that come; labels that go and that come; at last the recipe's own text.
pub open spec fn update_plan(original: Recipe, edited: Recipe) -> Seq<EditRequest> {
    removed_requirements(original.requirements@, edited.requirements@).map_values(
        |q: Requirement| requirement_request(Change::Delete, q),
    ) + added_requirements(original.requirements@, edited.requirements@).map_values(
        |q: Requirement| requirement_request(Change::Create, q),
    ) + updated_requirements(original.requirements@, edited.requirements@).map_values(
        |q: Requirement| requirement_request(Change::Update, q),
    ) + dependencies_beyond(original.dependencies@, edited.dependencies@).map_values(
        |d: Dependency| dependency_request(false, d),
    ) + dependencies_beyond(edited.dependencies@, original.dependencies@).map_values(
        |d: Dependency| dependency_request(true, d),
    ) + labels_beyond(original.tags@, edited.tags@).map_values(
        |t: LabelIndex| label_request(false, t),
    ) + labels_beyond(edited.tags@, original.tags@).map_values(
        |t: LabelIndex| label_request(true, t),
    ) + seq![
        EditRequest::UpdateRecipe {
            name: edited.name,
            author: edited.author,
            directions: edited.directions,
        },
    ]
}

/// Appends to `plan` the request that makes `change` to each of `items`.
fn push_requirement_requests(plan: &mut Vec<EditRequest>, items: &Vec<Requirement>, change: Change)
    ensures
        final(plan)@ == old(plan)@ + items@.map_values(
            |q: Requirement| requirement_request(change, q),
        ),
{
    let ghost start = plan@;
    let ghost f = |q: Requirement| requirement_request(change, q);
    let mut i: usize = 0;
    assert(plan@ =~= start + items@.take(0).map_values(f));
    while i < items.len()
        invariant
            i <= items.len(),
            f == |q: Requirement| requirement_request(change, q),
            plan@ == start + items@.take(i as int).map_values(f),
        decreases items.len() - i,
    {
        let q = &items[i];
        let request = match change {
            Change::Delete => EditRequest::DeleteRequirement { ingredient: q.ingredient.id.clone() },
            Change::Create => EditRequest::CreateRequirement {
                ingredient: q.ingredient.id.clone(),
                quantity: q.quantity.clone(),
                optional: q.optional,
            },
            Change::Update => EditRequest::UpdateRequirement {
                ingredient: q.ingredient.id.clone(),
                quantity: q.quantity.clone(),
                optional: q.optional,
            },
        };
        plan.push(request);
        assert(plan@ =~= start + items@.take(i + 1).map_values(f));
        i += 1;
    }
    assert(items@.take(i as int) =~= items@);
}

/// Appends to `plan` the request that creates, or deletes, each of `items`.
fn push_dependency_requests(plan: &mut Vec<EditRequest>, items: &Vec<Dependency>, create: bool)
    ensures
        final(plan)@ == old(plan)@ + items@.map_values(
            |d: Dependency| dependency_request(create, d),
        ),
{
    let ghost start = plan@;
    let ghost f = |d: Dependency| dependency_request(create, d);
    let mut i: usize = 0;
    assert(plan@ =~= start + items@.take(0).map_values(f));
    while i < items.len()
        invariant
            i <= items.len(),
            f == |d: Dependency| dependency_request(create, d),
            plan@ == start + items@.take(i as int).map_values(f),
        decreases items.len() - i,
    {
        let d = &items[i];
        let request = if create {
            EditRequest::CreateDependency {
                recipe: d.recipe.id.clone(),
                quantity: d.quantity.clone(),
                optional: d.optional,
            }
        } else {
            EditRequest::DeleteDependency { recipe: d.recipe.id.clone() }
        };
        plan.push(request);
        assert(plan@ =~= start + items@.take(i + 1).map_values(f));
        i += 1;
    }
    assert(items@.take(i as int) =~= items@);
}

/// Appends to `plan` the request that puts on, or takes off, each of `items`.
fn push_label_requests(plan: &mut Vec<EditRequest>, items: &Vec<LabelIndex>, tag: bool)
    ensures
        final(plan)@ == old(plan)@ + items@.map_values(|t: LabelIndex| label_request(tag, t)),
{
    let ghost start = plan@;
    let ghost f = |t: LabelIndex| label_request(tag, t);
    let mut i: usize = 0;
    assert(plan@ =~= start + items@.take(0).map_values(f));
    while i < items.len()
        invariant
            i <= items.len(),
            f == |t: LabelIndex| label_request(tag, t),
            plan@ == start + items@.take(i as int).map_values(f),
        decreases items.len() - i,
    {
        let t = &items[i];
        let request = if tag {
            EditRequest::Tag { name: t.name.clone() }
        } else {
            EditRequest::Untag { label: t.id.clone() }
        };
        plan.push(request);
        assert(plan@ =~= start + items@.take(i + 1).map_values(f));
        i += 1;
    }
    assert(items@.take(i as int) =~= items@);
}

/// The requests that save the draft `edited` of the recipe `original`.
pub fn plan_update(original: &Recipe, edited: &Recipe) -> (plan: Vec<EditRequest>)
    ensures
        plan@ == update_plan(*original, *edited),
{
    let requirements = diff_requirements(&original.requirements, &edited.requirements);
    let gone = diff_dependencies(&original.dependencies, &edited.dependencies);
    let come = diff_dependencies(&edited.dependencies, &original.dependencies);
    let untagged = diff_labels(&original.tags, &edited.tags);
    let tagged = diff_labels(&edited.tags, &original.tags);
    let mut plan: Vec<EditRequest> = Vec::new();
    assert(plan@ =~= Seq::<EditRequest>::empty());
    push_requirement_requests(&mut plan, &requirements.removed, Change::Delete);
    push_requirement_requests(&mut plan, &requirements.added, Change::Create);
    push_requirement_requests(&mut plan, &requirements.updated, Change::Update);
    push_dependency_requests(&mut plan, &gone, false);
    push_dependency_requests(&mut plan, &come, true);
    push_label_requests(&mut plan, &untagged, false);
    push_label_requests(&mut plan, &tagged, true);
    plan.push(
        EditRequest::UpdateRecipe {
            name: edited.name.clone(),
            author: edited.author.clone(),
            directions: edited.directions.clone(),
        },
    );
    assert(plan@ =~= update_plan(*original, *edited));
    plan
}

/// Whether the draft differs from the saved recipe in anything that saving would send: in
/// name, author or directions, or in a requirement, dependency or label.
pub open spec fn differs(original: Recipe, edited: Recipe) -> bool {
    ||| original.name@ != edited.name@
    ||| original.author@ != edited.author@
    ||| original.directions@ != edited.directions@
    ||| update_plan(original, edited).len() > 1
}

/// Whether there is anything to save.
pub fn has_unsaved_changes(original: &Recipe, edited: &Recipe) -> (unsaved: bool)
    ensures
        unsaved == differs(*original, *edited),
{
    if original.name != edited.name || original.author != edited.author || original.directions
        != edited.directions {
        return true;
    }
    let plan = plan_update(original, edited);
    plan.len() > 1
}

/// A recipe under edit: the recipe as the server has it, once it has come, and the draft.
#[derive(Clone, Debug, PartialEq, Eq)]
pub struct RecipeEditWindowState {
    pub original_recipe: Option<Recipe>,
    pub new_recipe: Recipe,
}

/// What happens to a recipe under edit.
#[derive(Clone, Debug, PartialEq, Eq)]
pub enum RecipeEditWindowActions {
    /// The server sent the recipe: the draft starts over from it.
    UpdateRecipe(Recipe),
    UpdateName(String),
    UpdateAuthor(String),
    UpdateDirections(String),
    /// A requirement for this ingredient, of this quantity, optional or not.
    AddRequirement(IngredientIndex, String, bool),
    /// New terms, quantity and optional or not, for the ingredient of this requirement.
    UpdateRequirement(Requirement, String, bool),
    /// The ingredient of this requirement is no longer asked for.
    DeleteRequirement(Requirement),
    /// A dependency on this recipe, of this quantity, optional or not.
    AddDependency(RecipeIndex, String, bool),
    /// New terms, quantity and optional or not, for the recipe of this dependency.
    UpdateDependency(Dependency, String, bool),
    /// The recipe of this dependency is no longer needed.
    DeleteDependency(Dependency),
    /// A label of this name.
    AddTag(String),
    /// No label of this name.
    DeleteTag(String),
}

/// `v` with the requirement `q`, unless `v` asks for its ingredient already.
pub open spec fn with_requirement(v: Seq<Requirement>, q: Requirement) -> Seq<Requirement> {
    if ingredient_ids(v).contains(q.ingredient.id@) {
        v
    } else {
        v.push(q)
    }
}

/// `q` on the terms `quantity` and `optional`, if it asks for the ingredient `id`.
pub open spec fn on_terms(q: Requirement, id: Id, quantity: String, optional: bool) -> Requirement {
    if q.ingredient.id@ == id {
        Requirement { ingredient: q.ingredient, quantity, optional }
    } else {
        q
    }
}

/// `v` with the ingredient of `req` on the terms `quantity` and `optional`: in place
/// where `v` asks for it, at the end where it does not.
pub open spec fn with_terms(v: Seq<Requirement>, req: Requirement, quantity: String, optional: bool) -> Seq<
    Requirement,
> {
    if ingredient_ids(v).contains(req.ingredient.id@) {
        v.map_values(|q: Requirement| on_terms(q, req.ingredient.id@, quantity, optional))
    } else {
        v.push(Requirement { ingredient: req.ingredient, quantity, optional })
    }
}

/// `v` without what asks for the ingredient `id`.
pub open spec fn without_ingredient(v: Seq<Requirement>, id: Id) -> Seq<Requirement> {
    v.filter(|q: Requirement| q.ingredient.id@ != id)
}

/// The recipes that a list of dependencies names, in order.
pub open spec fn needed_ids(v: Seq<Dependency>) -> Seq<Id> {
    v.map_values(|d: Dependency| d.recipe.id@)
}

/// `v` with the dependency `d`, unless `v` names its recipe already.
pub open spec fn with_dependency(v: Seq<Dependency>, d: Dependency) -> Seq<Dependency> {
    if needed_ids(v).contains(d.recipe.id@) {
        v
    } else {
        v.push(d)
    }
}

/// `d` on the terms `quantity` and `optional`, if it names the recipe `id`.
pub open spec fn needed_on_terms(d: Dependency, id: Id, quantity: String, optional: bool) -> Dependency {
    if d.recipe.id@ == id {
        Dependency { recipe: d.recipe, quantity, optional }
    } else {
        d
    }
}

/// `v` with the recipe of `dep` on the terms `quantity` and `optional`: in place where
/// `v` names it, at the end where it does not.
pub open spec fn with_needed_terms(v: Seq<Dependency>, dep: Dependency, quantity: String, optional: bool) -> Seq<
    Dependency,
> {
    if needed_ids(v).contains(dep.recipe.id@) {
        v.map_values(|d: Dependency| needed_on_terms(d, dep.recipe.id@, quantity, optional))
    } else {
        v.push(Dependency { recipe: dep.recipe, quantity, optional })
    }
}

/// `v` without what names the recipe `id`.
pub open spec fn without_needed(v: Seq<Dependency>, id: Id) -> Seq<Dependency> {
    v.filter(|d: Dependency| d.recipe.id@ != id)
}

/// `v` without the labels named `name`.
pub open spec fn without_label(v: Seq<LabelIndex>, name: Seq<char>) -> Seq<LabelIndex> {
    v.filter(|t: LabelIndex| t.name@ != name)
}

/// `v` with a label named `name` that has no identifier yet, unless it holds one.
pub open spec fn with_label(v: Seq<LabelIndex>, name: String, out: Seq<LabelIndex>) -> bool {
    if label_keys(v).contains((Seq::<char>::empty(), name@)) {
        out == v
    } else {
        out.len() == v.len() + 1 && out.drop_last() == v && out.last().name == name
            && out.last().id@ == Seq::<char>::empty()
    }
}

/// `after` is `before` but for its requirements, dependencies and labels.
pub open spec fn same_but_lists(before: Recipe, after: Recipe) -> bool {
    &&& after.id == before.id
    &&& after.name == before.name
    &&& after.author == before.author
    &&& after.directions == before.directions
}

/// Nothing occurs twice in the lists of `r`: no ingredient among its requirements, no
/// recipe among its dependencies, no label among its labels.
pub open spec fn well_listed(r: Recipe) -> bool {
    &&& ingredient_ids(r.requirements@).no_duplicates()
    &&& needed_ids(r.dependencies@).no_duplicates()
    &&& label_keys(r.tags@).no_duplicates()
}

/// What is left of a list in which no key occurs twice holds no key twice.
pub proof fn lemma_filter_keeps_distinct<T, K>(
    v: Seq<T>,
    key: spec_fn(T) -> K,
    pred: spec_fn(T) -> bool,
)
    requires
        v.map_values(key).no_duplicates(),
    ensures
        v.filter(pred).map_values(key).no_duplicates(),
    decreases v.len(),
{
    reveal(Seq::filter);
    if v.len() > 0 {
        let most = v.drop_last();
        let last = v.last();
        assert forall|a: int, b: int|
            0 <= a < most.len() && 0 <= b < most.len() && a != b implies most.map_values(key)[a]
            != most.map_values(key)[b] by {
            assert(v.map_values(key)[a] == most.map_values(key)[a]);
            assert(v.map_values(key)[b] == most.map_values(key)[b]);
        }
        lemma_filter_keeps_distinct(most, key, pred);
        let kept = most.filter(pred);
        if pred(last) {
            let out = kept.push(last);
            assert(v.filter(pred) == out);
            assert forall|a: int, b: int|
                0 <= a < out.len() && 0 <= b < out.len() && a != b implies out.map_values(key)[a]
                != out.map_values(key)[b] by {
                if a < kept.len() && b < kept.len() {
                    assert(kept.map_values(key)[a] != kept.map_values(key)[b]);
                } else {
                    let c = if a < kept.len() {
                        a
                    } else {
                        b
                    };
                    assert(kept.contains(kept[c]));
                    most.lemma_filter_contains_rev(pred, kept[c]);
                    let m = choose|m: int| 0 <= m < most.len() && most[m] == kept[c];
                    assert(v.map_values(key)[m] == key(kept[c]));
                    assert(v.map_values(key)[v.len() - 1] == key(last));
                }
            }
        }
    }
}

/// What `reduce` makes of a draft in whose lists nothing occurs twice is such a draft,
/// where the recipe that comes from the server is one.
pub proof fn lemma_reduced_well_listed(
    before: RecipeEditWindowState,
    action: RecipeEditWindowActions,
    after: RecipeEditWindowState,
)
    requires
        reduced(before, action, after),
        well_listed(before.new_recipe),
        action matches RecipeEditWindowActions::UpdateRecipe(recipe) ==> well_listed(recipe),
    ensures
        well_listed(after.new_recipe),
{
    let old_draft = before.new_recipe;
    match action {
        RecipeEditWindowActions::UpdateRequirement(req, quantity, optional) => {
            let v = old_draft.requirements@;
            let id = req.ingredient.id@;
            if ingredient_ids(v).contains(id) {
                let changed = v.map_values(|q: Requirement| on_terms(q, id, quantity, optional));
                assert(ingredient_ids(changed) =~= ingredient_ids(v));
            } else {
                lemma_push_keeps_distinct(ingredient_ids(v), id);
                assert(ingredient_ids(
                    v.push(Requirement { ingredient: req.ingredient, quantity, optional }),
                ) =~= ingredient_ids(v).push(id));
            }
        },
        RecipeEditWindowActions::AddRequirement(ingredient, quantity, optional) => {
            let v = old_draft.requirements@;
            if !ingredient_ids(v).contains(ingredient.id@) {
                lemma_push_keeps_distinct(ingredient_ids(v), ingredient.id@);
                assert(ingredient_ids(v.push(Requirement { ingredient, quantity, optional }))
                    =~= ingredient_ids(v).push(ingredient.id@));
            }
        },
        RecipeEditWindowActions::DeleteRequirement(req) => {
            lemma_filter_keeps_distinct(
                old_draft.requirements@,
                |q: Requirement| q.ingredient.id@,
                |q: Requirement| q.ingredient.id@ != req.ingredient.id@,
            );
        },
        RecipeEditWindowActions::UpdateDependency(dep, quantity, optional) => {
            let v = old_draft.dependencies@;
            let id = dep.recipe.id@;
            if needed_ids(v).contains(id) {
                let changed = v.map_values(
                    |d: Dependency| needed_on_terms(d, id, quantity, optional),
                );
                assert(needed_ids(changed) =~= needed_ids(v));
            } else {
                lemma_push_keeps_distinct(needed_ids(v), id);
                assert(needed_ids(v.push(Dependency { recipe: dep.recipe, quantity, optional }))
                    =~= needed_ids(v).push(id));
            }
        },
        RecipeEditWindowActions::AddDependency(recipe, quantity, optional) => {
            let v = old_draft.dependencies@;
            if !needed_ids(v).contains(recipe.id@) {
                lemma_push_keeps_distinct(needed_ids(v), recipe.id@);
                assert(needed_ids(v.push(Dependency { recipe, quantity, optional }))
                    =~= needed_ids(v).push(recipe.id@));
            }
        },
        RecipeEditWindowActions::DeleteDependency(dep) => {
            lemma_filter_keeps_distinct(
                old_draft.dependencies@,
                |d: Dependency| d.recipe.id@,
                |d: Dependency| d.recipe.id@ != dep.recipe.id@,
            );
        },
        RecipeEditWindowActions::AddTag(name) => {
            let v = old_draft.tags@;
            let out = after.new_recipe.tags@;
            let k = (Seq::<char>::empty(), name@);
            if !label_keys(v).contains(k) {
                lemma_push_keeps_distinct(label_keys(v), k);
                assert(out =~= out.drop_last().push(out.last()));
                assert(label_keys(out) =~= label_keys(v).push(k));
            }
        },
        RecipeEditWindowActions::DeleteTag(name) => {
            lemma_filter_keeps_distinct(
                old_draft.tags@,
                |o: LabelIndex| label_key(o),
                |t: LabelIndex| t.name@ != name@,
            );
        },
        _ => {},
    }
}

/// A list without repetition stays one when something new is added.
pub proof fn lemma_push_keeps_distinct<K>(keys: Seq<K>, k: K)
    requires
        keys.no_duplicates(),
        !keys.contains(k),
    ensures
        keys.push(k).no_duplicates(),
{
    let out = keys.push(k);
    assert forall|a: int, b: int| 0 <= a < out.len() && 0 <= b < out.len() && a != b implies out[a]
        != out[b] by {
        if a < keys.len() && b < keys.len() {
        } else if a < keys.len() {
            assert(keys.contains(keys[a]));
        } else {
            assert(keys.contains(keys[b]));
        }
    }
}

/// What `reduce` makes of `before` on `action`.
pub open spec fn reduced(
    before: RecipeEditWindowState,
    action: RecipeEditWindowActions,
    after: RecipeEditWindowState,
) -> bool {
    match action {
        RecipeEditWindowActions::UpdateRecipe(recipe) => {
            &&& after.new_recipe == recipe
            &&& after.original_recipe matches Some(o) && same_recipe(o, recipe)
        },
        RecipeEditWindowActions::UpdateName(name) => {
            &&& after.original_recipe == before.original_recipe
            &&& after.new_recipe == (Recipe { name, ..before.new_recipe })
        },
        RecipeEditWindowActions::UpdateAuthor(author) => {
            &&& after.original_recipe == before.original_recipe
            &&& after.new_recipe == (Recipe { author, ..before.new_recipe })
        },
        RecipeEditWindowActions::UpdateDirections(directions) => {
            &&& after.original_recipe == before.original_recipe
            &&& after.new_recipe == (Recipe { directions, ..before.new_recipe })
        },
        RecipeEditWindowActions::AddRequirement(ingredient, quantity, optional) => {
            &&& after.original_recipe == before.original_recipe
            &&& same_but_lists(before.new_recipe, after.new_recipe)
            &&& after.new_recipe.tags == before.new_recipe.tags
            &&& after.new_recipe.dependencies == before.new_recipe.dependencies
            &&& after.new_recipe.requirements@ == with_requirement(
                before.new_recipe.requirements@,
                Requirement { ingredient, quantity, optional },
            )
        },
        RecipeEditWindowActions::UpdateRequirement(req, quantity, optional) => {
            &&& after.original_recipe == before.original_recipe
            &&& same_but_lists(before.new_recipe, after.new_recipe)
            &&& after.new_recipe.tags == before.new_recipe.tags
            &&& after.new_recipe.dependencies == before.new_recipe.dependencies
            &&& after.new_recipe.requirements@ == with_terms(
                before.new_recipe.requirements@,
                req,
                quantity,
                optional,
            )
        },
        RecipeEditWindowActions::DeleteRequirement(req) => {
            &&& after.original_recipe == before.original_recipe
            &&& same_but_lists(before.new_recipe, after.new_recipe)
            &&& after.new_recipe.tags == before.new_recipe.tags
            &&& after.new_recipe.dependencies == before.new_recipe.dependencies
            &&& after.new_recipe.requirements@ == without_ingredient(
                before.new_recipe.requirements@,
                req.ingredient.id@,
            )
        },
        RecipeEditWindowActions::AddDependency(recipe, quantity, optional) => {
            &&& after.original_recipe == before.original_recipe
            &&& same_but_lists(before.new_recipe, after.new_recipe)
            &&& after.new_recipe.tags == before.new_recipe.tags
            &&& after.new_recipe.requirements == before.new_recipe.requirements
            &&& after.new_recipe.dependencies@ == with_dependency(
                before.new_recipe.dependencies@,
                Dependency { recipe, quantity, optional },
            )
        },
        RecipeEditWindowActions::UpdateDependency(dep, quantity, optional) => {
            &&& after.original_recipe == before.original_recipe
            &&& same_but_lists(before.new_recipe, after.new_recipe)
            &&& after.new_recipe.tags == before.new_recipe.tags
            &&& after.new_recipe.requirements == before.new_recipe.requirements
            &&& after.new_recipe.dependencies@ == with_needed_terms(
                before.new_recipe.dependencies@,
                dep,
                quantity,
                optional,
            )
        },
        RecipeEditWindowActions::DeleteDependency(dep) => {
            &&& after.original_recipe == before.original_recipe
            &&& same_but_lists(before.new_recipe, after.new_recipe)
            &&& after.new_recipe.tags == before.new_recipe.tags
            &&& after.new_recipe.requirements == before.new_recipe.requirements
            &&& after.new_recipe.dependencies@ == without_needed(
                before.new_recipe.dependencies@,
                dep.recipe.id@,
            )
        },
        RecipeEditWindowActions::AddTag(name) => {
            &&& after.original_recipe == before.original_recipe
            &&& same_but_lists(before.new_recipe, after.new_recipe)
            &&& after.new_recipe.requirements == before.new_recipe.requirements
            &&& after.new_recipe.dependencies == before.new_recipe.dependencies
            &&& with_label(before.new_recipe.tags@, name, after.new_recipe.tags@)
        },
        RecipeEditWindowActions::DeleteTag(name) => {
            &&& after.original_recipe == before.original_recipe
            &&& same_but_lists(before.new_recipe, after.new_recipe)
            &&& after.new_recipe.requirements == before.new_recipe.requirements
            &&& after.new_recipe.dependencies == before.new_recipe.dependencies
            &&& after.new_recipe.tags@ == without_label(before.new_recipe.tags@, name@)
        },
    }
}

/// `v` with the ingredient of `req` on new terms.
fn set_terms(v: &Vec<Requirement>, req: &Requirement, quantity: String, optional: bool) -> (out:
    Vec<Requirement>)
    ensures
        out@ == with_terms(v@, *req, quantity, optional),
{
    let mut out: Vec<Requirement> = Vec::new();
    if find_requirement(v, &req.ingredient.id).is_none() {
        let mut i: usize = 0;
        while i < v.len()
            invariant
                i <= v.len(),
                out@ == v@.take(i as int),
            decreases v.len() - i,
        {
            out.push(v[i].clone());
            i += 1;
        }
        assert(v@.take(i as int) =~= v@);
        out.push(Requirement { ingredient: req.ingredient.clone(), quantity, optional });
        return out;
    }
    let ghost f = |q: Requirement| on_terms(q, req.ingredient.id@, quantity, optional);
    let mut i: usize = 0;
    while i < v.len()
        invariant
            i <= v.len(),
            f == |q: Requirement| on_terms(q, req.ingredient.id@, quantity, optional),
            out@ == v@.take(i as int).map_values(f),
        decreases v.len() - i,
    {
        let q = &v[i];
        if q.ingredient.id == req.ingredient.id {
            out.push(
                Requirement {
                    ingredient: q.ingredient.clone(),
                    quantity: quantity.clone(),
                    optional,
                },
            );
        } else {
            out.push(q.clone());
        }
        assert(out@ =~= v@.take(i + 1).map_values(f));
        i += 1;
    }
    assert(v@.take(i as int) =~= v@);
    out
}

/// `v` without what asks for the ingredient `id`.
fn drop_ingredient(v: &Vec<Requirement>, id: &String) -> (out: Vec<Requirement>)
    ensures
        out@ == without_ingredient(v@, id@),
{
    let ghost pred = |q: Requirement| q.ingredient.id@ != id@;
    let mut out: Vec<Requirement> = Vec::new();
    let mut i: usize = 0;
    assert(v@.take(0).filter(pred) =~= Seq::<Requirement>::empty()) by {
        reveal(Seq::filter);
    }
    while i < v.len()
        invariant
            i <= v.len(),
            pred == |q: Requirement| q.ingredient.id@ != id@,
            out@ == v@.take(i as int).filter(pred),
        decreases v.len() - i,
    {
        proof {
            v@.lemma_take_succ_push(i as int);
            v@.take(i as int).lemma_filter_push(v@[i as int], pred);
        }
        if v[i].ingredient.id != *id {
            out.push(v[i].clone());
        }
        i += 1;
    }
    assert(v@.take(i as int) =~= v@);
    out
}

/// Whether `v` names the recipe `id`.
fn names_recipe(v: &Vec<Dependency>, id: &String) -> (found: bool)
    ensures
        found == needed_ids(v@).contains(id@),
{
    let mut i: usize = 0;
    while i < v.len()
        invariant
            i <= v.len(),
            forall|k: int| 0 <= k < i ==> needed_ids(v@)[k] != id@,
        decreases v.len() - i,
    {
        if v[i].recipe.id == *id {
            assert(needed_ids(v@)[i as int] == id@);
            return true;
        }
        i += 1;
    }
    false
}

/// `v` with the recipe of `dep` on new terms.
fn set_needed_terms(v: &Vec<Dependency>, dep: &Dependency, quantity: String, optional: bool) -> (out:
    Vec<Dependency>)
    ensures
        out@ == with_needed_terms(v@, *dep, quantity, optional),
{
    let mut out: Vec<Dependency> = Vec::new();
    if !names_recipe(v, &dep.recipe.id) {
        let mut i: usize = 0;
        while i < v.len()
            invariant
                i <= v.len(),
                out@ == v@.take(i as int),
            decreases v.len() - i,
        {
            out.push(v[i].clone());
            i += 1;
        }
        assert(v@.take(i as int) =~= v@);
        out.push(Dependency { recipe: dep.recipe.clone(), quantity, optional });
        return out;
    }
    let ghost f = |d: Dependency| needed_on_terms(d, dep.recipe.id@, quantity, optional);
    let mut i: usize = 0;
    while i < v.len()
        invariant
            i <= v.len(),
            f == |d: Dependency| needed_on_terms(d, dep.recipe.id@, quantity, optional),
            out@ == v@.take(i as int).map_values(f),
        decreases v.len() - i,
    {
        let d = &v[i];
        if d.recipe.id == dep.recipe.id {
            out.push(
                Dependency { recipe: d.recipe.clone(), quantity: quantity.clone(), optional },
            );
        } else {
            out.push(d.clone());
        }
        assert(out@ =~= v@.take(i + 1).map_values(f));
        i += 1;
    }
    assert(v@.take(i as int) =~= v@);
    out
}

/// `v` without what names the recipe `id`.
fn drop_needed(v: &Vec<Dependency>, id: &String) -> (out: Vec<Dependency>)
    ensures
        out@ == without_needed(v@, id@),
{
    let ghost pred = |d: Dependency| d.recipe.id@ != id@;
    let mut out: Vec<Dependency> = Vec::new();
    let mut i: usize = 0;
    assert(v@.take(0).filter(pred) =~= Seq::<Dependency>::empty()) by {
        reveal(Seq::filter);
    }
    while i < v.len()
        invariant
            i <= v.len(),
            pred == |d: Dependency| d.recipe.id@ != id@,
            out@ == v@.take(i as int).filter(pred),
        decreases v.len() - i,
    {
        proof {
            v@.lemma_take_succ_push(i as int);
            v@.take(i as int).lemma_filter_push(v@[i as int], pred);
        }
        if v[i].recipe.id != *id {
            out.push(v[i].clone());
        }
        i += 1;
    }
    assert(v@.take(i as int) =~= v@);
    out
}

/// `v` without the labels named `name`.
fn drop_label(v: &Vec<LabelIndex>, name: &String) -> (out: Vec<LabelIndex>)
    ensures
        out@ == without_label(v@, name@),
{
    let ghost pred = |t: LabelIndex| t.name@ != name@;
    let mut out: Vec<LabelIndex> = Vec::new();
    let mut i: usize = 0;
    assert(v@.take(0).filter(pred) =~= Seq::<LabelIndex>::empty()) by {
        reveal(Seq::filter);
    }
    while i < v.len()
        invariant
            i <= v.len(),
            pred == |t: LabelIndex| t.name@ != name@,
            out@ == v@.take(i as int).filter(pred),
        decreases v.len() - i,
    {
        proof {
            v@.lemma_take_succ_push(i as int);
            v@.take(i as int).lemma_filter_push(v@[i as int], pred);
        }
        if v[i].name != *name {
            out.push(v[i].clone());
        }
        i += 1;
    }
    assert(v@.take(i as int) =~= v@);
    out
}

impl RecipeEditWindowState {
    /// Nothing has come yet and the draft is empty.
    pub fn new() -> (state: RecipeEditWindowState)
        ensures
            state.original_recipe is None,
            state.new_recipe.id@.len() == 0,
            state.new_recipe.name@.len() == 0,
            state.new_recipe.author@.len() == 0,
            state.new_recipe.directions@.len() == 0,
            state.new_recipe.tags@.len() == 0,
            state.new_recipe.requirements@.len() == 0,
            state.new_recipe.dependencies@.len() == 0,
            well_listed(state.new_recipe),
    {
        let state = RecipeEditWindowState { original_recipe: None, new_recipe: Recipe::empty() };
        proof {
            assert(ingredient_ids(state.new_recipe.requirements@) =~= Seq::<Id>::empty());
            assert(needed_ids(state.new_recipe.dependencies@) =~= Seq::<Id>::empty());
            assert(label_keys(state.new_recipe.tags@) =~= Seq::<(Id, Seq<char>)>::empty());
        }
        state
    }

    /// The state that `action` leads to.
    pub fn reduce(self, action: RecipeEditWindowActions) -> (after: RecipeEditWindowState)
        ensures
            reduced(self, action, after),
            well_listed(self.new_recipe) && (action matches RecipeEditWindowActions::UpdateRecipe(
                recipe,
            ) ==> well_listed(recipe)) ==> well_listed(after.new_recipe),
    {
        let ghost before = self;
        let ghost taken = action;
        let mut state = self;
        match action {
            RecipeEditWindowActions::UpdateRecipe(recipe) => {
                state.original_recipe = Some(recipe.clone());
                state.new_recipe = recipe;
            },
            RecipeEditWindowActions::UpdateName(name) => {
                state.new_recipe.name = name;
            },
            RecipeEditWindowActions::UpdateAuthor(author) => {
                state.new_recipe.author = author;
            },
            RecipeEditWindowActions::UpdateDirections(directions) => {
                state.new_recipe.directions = directions;
            },
            RecipeEditWindowActions::AddRequirement(ingredient, quantity, optional) => {
                if find_requirement(&state.new_recipe.requirements, &ingredient.id).is_none() {
                    state.new_recipe.requirements.push(
                        Requirement { ingredient, quantity, optional },
                    );
                }
            },
            RecipeEditWindowActions::UpdateRequirement(req, quantity, optional) => {
                state.new_recipe.requirements = set_terms(
                    &state.new_recipe.requirements,
                    &req,
                    quantity,
                    optional,
                );
            },
            RecipeEditWindowActions::DeleteRequirement(req) => {
                state.new_recipe.requirements = drop_ingredient(
                    &state.new_recipe.requirements,
                    &req.ingredient.id,
                );
            },
            RecipeEditWindowActions::AddDependency(recipe, quantity, optional) => {
                if !names_recipe(&state.new_recipe.dependencies, &recipe.id) {
                    state.new_recipe.dependencies.push(Dependency { recipe, quantity, optional });
                }
            },
            RecipeEditWindowActions::UpdateDependency(dep, quantity, optional) => {
                state.new_recipe.dependencies = set_needed_terms(
                    &state.new_recipe.dependencies,
                    &dep,
                    quantity,
                    optional,
                );
            },
            RecipeEditWindowActions::DeleteDependency(dep) => {
                state.new_recipe.dependencies = drop_needed(
                    &state.new_recipe.dependencies,
                    &dep.recipe.id,
                );
            },
            RecipeEditWindowActions::AddTag(name) => {
                let label = LabelIndex { id: String::new(), name };
                if !holds_label(&state.new_recipe.tags, &label) {
                    let ghost before = state.new_recipe.tags@;
                    state.new_recipe.tags.push(label);
                    assert(state.new_recipe.tags@.drop_last() =~= before);
                }
            },
            RecipeEditWindowActions::DeleteTag(name) => {
                state.new_recipe.tags = drop_label(&state.new_recipe.tags, &name);
            },
        }
        proof {
            if well_listed(before.new_recipe) && (
            taken matches RecipeEditWindowActions::UpdateRecipe(recipe) ==> well_listed(recipe)) {
                lemma_reduced_well_listed(before, taken, state);
            }
        }
        state
    }

    /// The ingredients that the draft asks for already, in order.
    pub fn ingredients_in_use(&self) -> (used: Vec<String>)
        ensures
            ids(used@) == ingredient_ids(self.new_recipe.requirements@),
    {
        let ghost all = self.new_recipe.requirements@;
        let mut used: Vec<String> = Vec::new();
        let mut i: usize = 0;
        assert(ids(used@) =~= ingredient_ids(all.take(0)));
        while i < self.new_recipe.requirements.len()
            invariant
                all == self.new_recipe.requirements@,
                i <= all.len(),
                ids(used@) == ingredient_ids(all.take(i as int)),
            decreases all.len() - i,
        {
            let ghost before = ids(used@);
            used.push(self.new_recipe.requirements[i].ingredient.id.clone());
            proof {
                assert(ids(used@) =~= before.push(all[i as int].ingredient.id@));
                all.lemma_take_succ_push(i as int);
                assert(ingredient_ids(all.take(i as int).push(all[i as int])) =~= before.push(
                    all[i as int].ingredient.id@,
                ));
            }
            i += 1;
        }
        assert(all.take(i as int) =~= all);
        used
    }

    /// The recipes that the draft needs already, in order.
    pub fn recipes_in_use(&self) -> (used: Vec<String>)
        ensures
            ids(used@) == needed_ids(self.new_recipe.dependencies@),
    {
        let ghost all = self.new_recipe.dependencies@;
        let mut used: Vec<String> = Vec::new();
        let mut i: usize = 0;
        assert(ids(used@) =~= needed_ids(all.take(0)));
        while i < self.new_recipe.dependencies.len()
            invariant
                all == self.new_recipe.dependencies@,
                i <= all.len(),
                ids(used@) == needed_ids(all.take(i as int)),
            decreases all.len() - i,
        {
            let ghost before = ids(used@);
            used.push(self.new_recipe.dependencies[i].recipe.id.clone());
            proof {
                assert(ids(used@) =~= before.push(all[i as int].recipe.id@));
                all.lemma_take_succ_push(i as int);
                assert(needed_ids(all.take(i as int).push(all[i as int])) =~= before.push(
                    all[i as int].recipe.id@,
                ));
            }
            i += 1;
        }
        assert(all.take(i as int) =~= all);
        used
    }
}

} // verus!
