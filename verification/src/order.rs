//! The order in which the recipes of a graph are shown: the main recipe first, every
//! recipe that it reaches once, and each recipe before everything it depends on, as far
//! as no recipe depends on itself.

use crate::graph::{
    contains_id, dep_ids, find_recipe, first_index, ids, ids_of, knows, lemma_lookup_at, lookup,
};
use crate::model::{Dependency, Id, Recipe};
use vstd::prelude::*;
use vstd::seq_lib::seq_to_set_is_finite;

verus! {

/// How many recipes of `g` are not on `path`.
pub open spec fn unvisited(g: Seq<Recipe>, path: Seq<Id>) -> nat {
    ids_of(g).to_set().difference(path.to_set()).len()
}

/// Entering a recipe that is not yet on the path leaves fewer recipes off the path.
pub proof fn lemma_unvisited_shrinks(g: Seq<Recipe>, path: Seq<Id>, id: Id)
    requires
        knows(g, id),
        !path.contains(id),
    ensures
        unvisited(g, path.push(id)) < unvisited(g, path),
{
    let known = ids_of(g).to_set();
    let before = known.difference(path.to_set());
    let after = known.difference(path.push(id).to_set());
    seq_to_set_is_finite(ids_of(g));
    assert(before.finite());
    assert(before.contains(id));
    assert forall|x: Id| after.contains(x) <==> before.remove(id).contains(x) by {
        if x != id {
            if path.contains(x) {
                let k = choose|k: int| 0 <= k < path.len() && path[k] == x;
                assert(path.push(id)[k] == x);
            }
            if path.push(id).contains(x) {
                let k = choose|k: int| 0 <= k < path.push(id).len() && path.push(id)[k] == x;
                assert(path[k] == x);
            }
        } else {
            assert(path.push(id)[path.len() as int] == id);
        }
    }
    assert(after =~= before.remove(id));
}

/// The recipes finished once `id` has been visited: `done`, then whatever `id` reaches
/// that is neither finished nor on `path`. A recipe is finished when each of its
/// dependencies has been visited; `path` holds the recipes whose visit is under way.
pub open spec fn visit(g: Seq<Recipe>, id: Id, done: Seq<Id>, path: Seq<Id>) -> Seq<Id>
    decreases unvisited(g, path), 0nat,
{
    if done.contains(id) || path.contains(id) || !knows(g, id) {
        done
    } else {
        proof {
            lemma_unvisited_shrinks(g, path, id);
        }
        visit_each(g, dep_ids(lookup(g, id)), done, path.push(id)).push(id)
    }
}

/// The recipes finished once each of `deps` has been visited in turn.
pub open spec fn visit_each(g: Seq<Recipe>, deps: Seq<Id>, done: Seq<Id>, path: Seq<Id>) -> Seq<
    Id,
>
    decreases unvisited(g, path), deps.len() + 1,
{
    if deps.len() == 0 {
        done
    } else {
        visit_each(g, deps.drop_first(), visit(g, deps[0], done, path), path)
    }
}

/// The recipes reached from `root` in the order in which they are shown: the visit of
/// `root` read backwards, so that `root` comes first and each recipe before those that
/// were finished before it.
pub open spec fn display_order(g: Seq<Recipe>, root: Id) -> Seq<Id> {
    visit(g, root, Seq::empty(), Seq::empty()).reverse()
}

/// What a visit adds to the finished recipes.
pub open spec fn grows_well(g: Seq<Recipe>, done: Seq<Id>, path: Seq<Id>, out: Seq<Id>) -> bool {
    &&& done.is_prefix_of(out)
    &&& forall|x: Id| #[trigger]
        out.contains(x) ==> done.contains(x) || (knows(g, x) && !path.contains(x))
    &&& done.no_duplicates() ==> out.no_duplicates()
}

/// A visit keeps what was finished, adds only recipes of the graph that are off the path,
/// and adds none twice.
pub proof fn lemma_visit_grows(g: Seq<Recipe>, id: Id, done: Seq<Id>, path: Seq<Id>)
    ensures
        grows_well(g, done, path, visit(g, id, done, path)),
    decreases unvisited(g, path), 0nat,
{
    if done.contains(id) || path.contains(id) || !knows(g, id) {
    } else {
        lemma_unvisited_shrinks(g, path, id);
        let inner = visit_each(g, dep_ids(lookup(g, id)), done, path.push(id));
        lemma_visit_each_grows(g, dep_ids(lookup(g, id)), done, path.push(id));
        let out = inner.push(id);
        assert(path.push(id)[path.len() as int] == id);
        assert(path.push(id).contains(id));
        assert(!inner.contains(id));
        assert(done.is_prefix_of(out));
        assert forall|x: Id| #[trigger] out.contains(x) implies done.contains(x) || (knows(g, x)
            && !path.contains(x)) by {
            let k = choose|k: int| 0 <= k < out.len() && out[k] == x;
            if k < inner.len() {
                assert(inner[k] == x);
                assert(inner.contains(x));
                if !done.contains(x) {
                    if path.contains(x) {
                        let m = choose|m: int| 0 <= m < path.len() && path[m] == x;
                        assert(path.push(id)[m] == x);
                    }
                }
            }
        }
        if done.no_duplicates() {
            assert forall|a: int, b: int| 0 <= a < out.len() && 0 <= b < out.len() && a != b implies out[a] != out[b] by {
                if a < inner.len() && b < inner.len() {
                } else if a < inner.len() {
                    assert(inner.contains(inner[a]));
                } else {
                    assert(inner.contains(inner[b]));
                }
            }
        }
    }
}

/// The same for a list of visits.
pub proof fn lemma_visit_each_grows(g: Seq<Recipe>, deps: Seq<Id>, done: Seq<Id>, path: Seq<Id>)
    ensures
        grows_well(g, done, path, visit_each(g, deps, done, path)),
    decreases unvisited(g, path), deps.len() + 1,
{
    if deps.len() == 0 {
    } else {
        let mid = visit(g, deps[0], done, path);
        lemma_visit_grows(g, deps[0], done, path);
        lemma_visit_each_grows(g, deps.drop_first(), mid, path);
        let out = visit_each(g, deps.drop_first(), mid, path);
        assert forall|x: Id| #[trigger] out.contains(x) implies done.contains(x) || (knows(g, x)
            && !path.contains(x)) by {
            if mid.contains(x) {
            }
        }
    }
}

/// Visits `id`: appends to `done` what `visit` says, and leaves `path` as it was.
fn visit_recipe(g: &Vec<Recipe>, id: &String, done: &mut Vec<String>, path: &mut Vec<String>)
    ensures
        ids(final(done)@) == visit(g@, id@, ids(old(done)@), ids(old(path)@)),
        ids(final(path)@) == ids(old(path)@),
    decreases unvisited(g@, ids(old(path)@)), 0nat,
{
    if contains_id(done, id) || contains_id(path, id) {
        return ;
    }
    let place = find_recipe(g, id);
    if place.is_none() {
        return ;
    }
    let k = place.unwrap();
    let ghost path0 = ids(path@);
    let ghost done0 = ids(done@);
    let ghost deps = dep_ids(g@[k as int]);
    proof {
        lemma_lookup_at(g@, k as int);
        lemma_unvisited_shrinks(g@, path0, id@);
    }
    path.push(id.clone());
    assert(ids(path@) =~= path0.push(id@));
    let mut j: usize = 0;
    assert(deps.skip(0) =~= deps);
    while j < g[k].dependencies.len()
        invariant
            k < g.len(),
            deps == dep_ids(g@[k as int]),
            j <= deps.len(),
            path0 == ids(old(path)@),
            ids(path@) == path0.push(id@),
            unvisited(g@, ids(path@)) < unvisited(g@, path0),
            visit_each(g@, deps.skip(j as int), ids(done@), ids(path@)) == visit_each(
                g@,
                deps,
                done0,
                ids(path@),
            ),
        decreases deps.len() - j,
    {
        let ghost rest = deps.skip(j as int);
        assert(rest.drop_first() =~= deps.skip(j + 1));
        assert(rest[0] == g@[k as int].dependencies@[j as int].recipe.id@);
        visit_recipe(g, &g[k].dependencies[j].recipe.id, done, path);
        j += 1;
    }
    assert(deps.skip(j as int) =~= Seq::<Id>::empty());
    let ghost full = path@;
    path.pop();
    assert(ids(path@) =~= path0) by {
        assert(path@ == full.drop_last());
        assert(ids(full).len() == path0.len() + 1);
        assert forall|i: int| 0 <= i < path0.len() implies ids(path@)[i] == path0[i] by {
            assert(ids(full)[i] == path0.push(id@)[i]);
        }
    }
    let ghost done1 = ids(done@);
    done.push(id.clone());
    assert(ids(done@) =~= done1.push(id@));
}

/// One recipe of the display: the one that was asked for, or one that another needs,
/// together with the dependency that names it.
#[derive(Clone, Copy, Debug)]
pub enum RecipeElement<'a> {
    MainRecipe(&'a Recipe),
    DependencyRecipe(&'a Dependency, &'a Recipe),
}

/// What a `RecipeElement` refers to.
pub enum ElementView {
    MainRecipe(Recipe),
    DependencyRecipe(Dependency, Recipe),
}

impl<'a> View for RecipeElement<'a> {
    type V = ElementView;

    open spec fn view(&self) -> ElementView {
        match *self {
            RecipeElement::MainRecipe(r) => ElementView::MainRecipe(*r),
            RecipeElement::DependencyRecipe(d, r) => ElementView::DependencyRecipe(*d, *r),
        }
    }
}

/// What a list of elements refers to.
pub open spec fn element_views(v: Seq<RecipeElement>) -> Seq<ElementView> {
    v.map_values(|e: RecipeElement| e@)
}

/// The first dependency of `r` that names `id`.
pub open spec fn link_in(r: Recipe, id: Id) -> Option<Dependency> {
    if dep_ids(r).contains(id) {
        Some(r.dependencies@[first_index(dep_ids(r), id)])
    } else {
        None
    }
}

/// The dependency that names `id` in the first recipe of `order` that has one.
pub open spec fn first_link(g: Seq<Recipe>, order: Seq<Id>, id: Id) -> Option<Dependency>
    decreases order.len(),
{
    if order.len() == 0 {
        None
    } else if link_in(lookup(g, order[0]), id) is Some {
        link_in(lookup(g, order[0]), id)
    } else {
        first_link(g, order.drop_first(), id)
    }
}

/// The element shown at place `k` of `order`: the first is the main recipe, every other
/// comes with the dependency by which the first recipe shown that uses it names it.
pub open spec fn element_at(g: Seq<Recipe>, order: Seq<Id>, k: int) -> ElementView {
    let recipe = lookup(g, order[k]);
    if k == 0 {
        ElementView::MainRecipe(recipe)
    } else {
        match first_link(g, order, order[k]) {
            Some(d) => ElementView::DependencyRecipe(d, recipe),
            None => ElementView::MainRecipe(recipe),
        }
    }
}

/// The elements shown for the recipes `order`.
pub open spec fn elements(g: Seq<Recipe>, order: Seq<Id>) -> Seq<ElementView> {
    Seq::new(order.len(), |k: int| element_at(g, order, k))
}

/// The elements shown for a graph whose first recipe is the main one.
pub open spec fn recipe_order(g: Seq<Recipe>) -> Seq<ElementView> {
    if g.len() == 0 {
        Seq::empty()
    } else {
        elements(g, display_order(g, g[0].id@))
    }
}

/// The first dependency of `r` that names `id`.
fn find_link_in<'a>(r: &'a Recipe, id: &String) -> (link: Option<&'a Dependency>)
    ensures
        link.is_some() == link_in(*r, id@).is_some(),
        link matches Some(d) ==> link_in(*r, id@) == Some(*d),
{
    let mut j: usize = 0;
    while j < r.dependencies.len()
        invariant
            j <= r.dependencies.len(),
            forall|k: int| 0 <= k < j ==> dep_ids(*r)[k] != id@,
        decreases r.dependencies.len() - j,
    {
        if r.dependencies[j].recipe.id == *id {
            proof {
                let s = dep_ids(*r);
                assert(s[j as int] == id@);
                assert(s.contains(id@));
                let f = first_index(s, id@);
                assert(0 <= f < s.len() && s[f] == id@ && forall|k: int|
                    0 <= k < f ==> s[k] != id@);
                assert(f == j);
            }
            return Some(&r.dependencies[j]);
        }
        j += 1;
    }
    proof {
        if dep_ids(*r).contains(id@) {
            let k = choose|k: int| 0 <= k < dep_ids(*r).len() && dep_ids(*r)[k] == id@;
            assert(false);
        }
    }
    None
}

/// The dependency that names `id` in the first recipe of `order` that has one.
fn find_link<'a>(g: &'a Vec<Recipe>, order: &Vec<String>, id: &String) -> (link: Option<
    &'a Dependency,
>)
    requires
        forall|m: int| 0 <= m < order.len() ==> knows(g@, #[trigger] ids(order@)[m]),
    ensures
        link.is_some() == first_link(g@, ids(order@), id@).is_some(),
        link matches Some(d) ==> first_link(g@, ids(order@), id@) == Some(*d),
{
    let mut m: usize = 0;
    assert(ids(order@).skip(0) =~= ids(order@));
    while m < order.len()
        invariant
            m <= order.len(),
            forall|m: int| 0 <= m < order.len() ==> knows(g@, #[trigger] ids(order@)[m]),
            first_link(g@, ids(order@).skip(m as int), id@) == first_link(g@, ids(order@), id@),
        decreases order.len() - m,
    {
        let ghost rest = ids(order@).skip(m as int);
        assert(rest[0] == ids(order@)[m as int]);
        assert(rest.drop_first() =~= ids(order@).skip(m + 1));
        let place = find_recipe(g, &order[m]);
        let p = place.unwrap();
        proof {
            lemma_lookup_at(g@, p as int);
        }
        let link = find_link_in(&g[p], id);
        if link.is_some() {
            return link;
        }
        m += 1;
    }
    None
}

/// The recipes to show, in order, for a graph whose first recipe is the main one: the
/// main recipe, then each recipe that it reaches, once. Where no recipe depends on
/// itself, each recipe comes before everything it depends on.
pub fn get_recipe_order<'a>(g: &'a Vec<Recipe>) -> (shown: Vec<RecipeElement<'a>>)
    ensures
        element_views(shown@) == recipe_order(g@),
{
    let mut shown: Vec<RecipeElement<'a>> = Vec::new();
    if g.len() == 0 {
        assert(element_views(shown@) =~= Seq::<ElementView>::empty());
        return shown;
    }
    let mut done: Vec<String> = Vec::new();
    let mut path: Vec<String> = Vec::new();
    assert(ids(done@) =~= Seq::<Id>::empty());
    assert(ids(path@) =~= Seq::<Id>::empty());
    visit_recipe(g, &g[0].id, &mut done, &mut path);
    let ghost finished = visit(g@, g@[0].id@, Seq::empty(), Seq::empty());
    proof {
        lemma_visit_grows(g@, g@[0].id@, Seq::empty(), Seq::empty());
    }
    let mut order: Vec<String> = Vec::new();
    let mut i: usize = done.len();
    while i > 0
        invariant
            i <= done.len(),
            order.len() == done.len() - i,
            forall|k: int| 0 <= k < order.len() ==> order@[k]@ == done@[done.len() - 1 - k]@,
        decreases i,
    {
        i -= 1;
        order.push(done[i].clone());
    }
    proof {
        assert(ids(order@) =~= ids(done@).reverse());
        assert forall|m: int| 0 <= m < order.len() implies knows(g@, #[trigger] ids(order@)[m]) by {
            assert(finished[finished.len() - 1 - m] == ids(order@)[m]);
            assert(finished.contains(ids(order@)[m]));
        }
    }
    let mut k: usize = 0;
    while k < order.len()
        invariant
            k <= order.len(),
            g.len() > 0,
            ids(order@) == display_order(g@, g@[0].id@),
            forall|m: int| 0 <= m < order.len() ==> knows(g@, #[trigger] ids(order@)[m]),
            shown.len() == k,
            forall|m: int| 0 <= m < k ==> (#[trigger] shown@[m])@ == element_at(g@, ids(order@), m),
        decreases order.len() - k,
    {
        assert(knows(g@, ids(order@)[k as int]));
        let place = find_recipe(g, &order[k]);
        let p = place.unwrap();
        proof {
            lemma_lookup_at(g@, p as int);
        }
        let recipe = &g[p];
        if k == 0 {
            shown.push(RecipeElement::MainRecipe(recipe));
        } else {
            match find_link(g, &order, &order[k]) {
                Some(d) => shown.push(RecipeElement::DependencyRecipe(d, recipe)),
                None => shown.push(RecipeElement::MainRecipe(recipe)),
            }
        }
        k += 1;
    }
    assert(element_views(shown@) =~= elements(g@, ids(order@)));
    shown
}

} // verus!
