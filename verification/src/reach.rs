//! What a recipe reaches through its dependencies, and what that says of the order in
//! which recipes are shown.

use crate::graph::{
    dep_ids, first_index, ids_of, knows, lemma_first_exists, lemma_lookup_known, lookup,
};
use crate::model::{Id, Recipe};
use crate::order::{
    display_order, element_at, first_link, lemma_unvisited_shrinks, lemma_visit_each_grows,
    lemma_visit_grows, link_in, recipe_order, unvisited, visit, visit_each, ElementView,
};
use vstd::prelude::*;

verus! {

/// The recipe at place `i` of `p` lists the one at the next place as a dependency.
pub open spec fn steps(g: Seq<Recipe>, p: Seq<Id>, i: int) -> bool {
    dep_ids(lookup(g, p[i])).contains(p[i + 1])
}

/// `p` leads through `g` from recipe to recipe, each step along a dependency.
pub open spec fn is_path(g: Seq<Recipe>, p: Seq<Id>) -> bool {
    &&& p.len() > 0
    &&& forall|i: int| 0 <= i < p.len() ==> knows(g, #[trigger] p[i])
    &&& forall|i: int| 0 <= i < p.len() - 1 ==> #[trigger] steps(g, p, i)
}

/// In `g` the recipe `from` reaches the recipe `to`: it is `to`, or depends on a recipe
/// of `g` that reaches `to`.
pub open spec fn reaches(g: Seq<Recipe>, from: Id, to: Id) -> bool {
    exists|p: Seq<Id>| is_path(g, p) && p[0] == from && p.last() == to
}

/// A recipe of the graph reaches itself.
pub proof fn lemma_reaches_self(g: Seq<Recipe>, id: Id)
    requires
        knows(g, id),
    ensures
        reaches(g, id, id),
{
    let p = seq![id];
    assert(is_path(g, p));
    assert(p[0] == id && p.last() == id);
}

/// A recipe reaches what its dependencies reach.
pub proof fn lemma_reaches_step(g: Seq<Recipe>, u: Id, v: Id, x: Id)
    requires
        knows(g, u),
        dep_ids(lookup(g, u)).contains(v),
        reaches(g, v, x),
    ensures
        reaches(g, u, x),
{
    let p = choose|p: Seq<Id>| is_path(g, p) && p[0] == v && p.last() == x;
    let q = seq![u] + p;
    assert forall|i: int| 0 <= i < q.len() implies knows(g, #[trigger] q[i]) by {
        if i > 0 {
            assert(q[i] == p[i - 1]);
        }
    }
    assert forall|i: int| 0 <= i < q.len() - 1 implies #[trigger] steps(g, q, i) by {
        if i > 0 {
            assert(steps(g, p, i - 1));
            assert(q[i] == p[i - 1]);
            assert(q[i + 1] == p[i - 1 + 1]);
        } else {
            assert(q[0] == u);
            assert(q[1] == p[0]);
        }
    }
    assert(is_path(g, q));
    assert(q[0] == u && q.last() == x);
}

/// Whatever is in `out` was in `done` or is reached from `id`.
pub open spec fn adds_reached(g: Seq<Recipe>, id: Id, done: Seq<Id>, out: Seq<Id>) -> bool {
    forall|x: Id| #[trigger] out.contains(x) ==> done.contains(x) || reaches(g, id, x)
}

/// Whatever is in `out` was in `done` or is reached from one of `deps`.
pub open spec fn adds_reached_from(g: Seq<Recipe>, deps: Seq<Id>, done: Seq<Id>, out: Seq<Id>) -> bool {
    forall|x: Id| #[trigger]
        out.contains(x) ==> done.contains(x) || exists|k: int|
            0 <= k < deps.len() && reaches(g, deps[k], x)
}

/// A visit finishes only what the visited recipe reaches.
pub proof fn lemma_visit_reaches(g: Seq<Recipe>, id: Id, done: Seq<Id>, path: Seq<Id>)
    ensures
        adds_reached(g, id, done, visit(g, id, done, path)),
    decreases unvisited(g, path), 0nat,
{
    if done.contains(id) || path.contains(id) || !knows(g, id) {
    } else {
        lemma_unvisited_shrinks(g, path, id);
        let deps = dep_ids(lookup(g, id));
        let inner = visit_each(g, deps, done, path.push(id));
        lemma_visit_each_reaches(g, deps, done, path.push(id));
        let out = inner.push(id);
        lemma_reaches_self(g, id);
        assert forall|x: Id| #[trigger] out.contains(x) implies done.contains(x) || reaches(
            g,
            id,
            x,
        ) by {
            let k = choose|k: int| 0 <= k < out.len() && out[k] == x;
            if k < inner.len() {
                assert(inner[k] == x);
                assert(inner.contains(x));
                if !done.contains(x) {
                    let m = choose|m: int| 0 <= m < deps.len() && reaches(g, deps[m], x);
                    assert(deps.contains(deps[m]));
                    lemma_reaches_step(g, id, deps[m], x);
                }
            }
        }
    }
}

/// Visits in turn finish only what the visited recipes reach.
pub proof fn lemma_visit_each_reaches(g: Seq<Recipe>, deps: Seq<Id>, done: Seq<Id>, path: Seq<Id>)
    ensures
        adds_reached_from(g, deps, done, visit_each(g, deps, done, path)),
    decreases unvisited(g, path), deps.len() + 1,
{
    if deps.len() == 0 {
    } else {
        let mid = visit(g, deps[0], done, path);
        let rest = deps.drop_first();
        let out = visit_each(g, rest, mid, path);
        lemma_visit_reaches(g, deps[0], done, path);
        lemma_visit_each_reaches(g, rest, mid, path);
        assert forall|x: Id| #[trigger] out.contains(x) implies done.contains(x) || exists|k: int|
            0 <= k < deps.len() && reaches(g, deps[k], x) by {
            if mid.contains(x) {
                if !done.contains(x) {
                    assert(reaches(g, deps[0], x));
                }
            } else {
                let m = choose|m: int| 0 <= m < rest.len() && reaches(g, rest[m], x);
                assert(rest[m] == deps[m + 1]);
                assert(reaches(g, deps[m + 1], x));
            }
        }
    }
}

/// Every dependency in `g` of a recipe of `done` is in `done` or on `path`.
pub open spec fn closed(g: Seq<Recipe>, done: Seq<Id>, path: Seq<Id>) -> bool {
    forall|u: Id, v: Id|
        #![trigger done.contains(u), dep_ids(lookup(g, u)).contains(v)]
        done.contains(u) && dep_ids(lookup(g, u)).contains(v) && knows(g, v) ==> done.contains(v)
            || path.contains(v)
}

/// What a prefix holds, the whole holds.
pub proof fn lemma_prefix_contains(a: Seq<Id>, b: Seq<Id>, x: Id)
    requires
        a.is_prefix_of(b),
        a.contains(x),
    ensures
        b.contains(x),
{
    let k = choose|k: int| 0 <= k < a.len() && a[k] == x;
    assert(b[k] == x);
}

/// A visit leaves no dependency of a finished recipe behind, and finishes the recipe it
/// visits unless that recipe is on the path.
pub proof fn lemma_visit_closes(g: Seq<Recipe>, id: Id, done: Seq<Id>, path: Seq<Id>)
    requires
        closed(g, done, path),
    ensures
        closed(g, visit(g, id, done, path), path),
        knows(g, id) ==> visit(g, id, done, path).contains(id) || path.contains(id),
    decreases unvisited(g, path), 0nat,
{
    if done.contains(id) || path.contains(id) || !knows(g, id) {
    } else {
        lemma_unvisited_shrinks(g, path, id);
        let deps = dep_ids(lookup(g, id));
        let longer = path.push(id);
        assert(closed(g, done, longer)) by {
            assert forall|u: Id, v: Id|
                #![trigger done.contains(u), dep_ids(lookup(g, u)).contains(v)]
                done.contains(u) && dep_ids(lookup(g, u)).contains(v) && knows(
                    g,
                    v,
                ) implies done.contains(v) || longer.contains(v) by {
                if path.contains(v) {
                    let k = choose|k: int| 0 <= k < path.len() && path[k] == v;
                    assert(longer[k] == v);
                }
            }
        }
        let inner = visit_each(g, deps, done, longer);
        lemma_visit_each_closes(g, deps, done, longer);
        let out = inner.push(id);
        assert(out[inner.len() as int] == id);
        assert(out.contains(id));
        assert forall|u: Id, v: Id|
            #![trigger out.contains(u), dep_ids(lookup(g, u)).contains(v)]
            out.contains(u) && dep_ids(lookup(g, u)).contains(v) && knows(g, v) implies out.contains(
                v,
            ) || path.contains(v) by {
            let k = choose|k: int| 0 <= k < out.len() && out[k] == u;
            if k < inner.len() {
                assert(inner[k] == u);
                assert(inner.contains(u));
            } else {
                let m = choose|m: int| 0 <= m < deps.len() && deps[m] == v;
                assert(knows(g, deps[m]));
            }
            assert(inner.contains(v) || longer.contains(v));
            if inner.contains(v) {
                let j = choose|j: int| 0 <= j < inner.len() && inner[j] == v;
                assert(out[j] == v);
            } else {
                let j = choose|j: int| 0 <= j < longer.len() && longer[j] == v;
                if j < path.len() {
                    assert(path[j] == v);
                }
            }
        }
    }
}

/// The same for visits in turn: each of `deps` that the graph holds ends up finished or
/// is on the path.
pub proof fn lemma_visit_each_closes(g: Seq<Recipe>, deps: Seq<Id>, done: Seq<Id>, path: Seq<Id>)
    requires
        closed(g, done, path),
    ensures
        closed(g, visit_each(g, deps, done, path), path),
        forall|k: int|
            0 <= k < deps.len() && knows(g, #[trigger] deps[k]) ==> visit_each(
                g,
                deps,
                done,
                path,
            ).contains(deps[k]) || path.contains(deps[k]),
    decreases unvisited(g, path), deps.len() + 1,
{
    if deps.len() == 0 {
    } else {
        let mid = visit(g, deps[0], done, path);
        let rest = deps.drop_first();
        let out = visit_each(g, rest, mid, path);
        lemma_visit_closes(g, deps[0], done, path);
        lemma_visit_each_closes(g, rest, mid, path);
        lemma_visit_each_grows(g, rest, mid, path);
        assert forall|k: int| 0 <= k < deps.len() && knows(g, #[trigger] deps[k]) implies out.contains(
            deps[k],
        ) || path.contains(deps[k]) by {
            if k == 0 {
                if mid.contains(deps[0]) {
                    lemma_prefix_contains(mid, out, deps[0]);
                }
            } else {
                assert(rest[k - 1] == deps[k]);
            }
        }
    }
}

/// The prefix of a path is a path.
pub proof fn lemma_path_prefix(g: Seq<Recipe>, p: Seq<Id>, n: int)
    requires
        is_path(g, p),
        1 <= n <= p.len(),
    ensures
        is_path(g, p.take(n)),
{
    let q = p.take(n);
    assert forall|i: int| 0 <= i < q.len() implies knows(g, #[trigger] q[i]) by {
        assert(q[i] == p[i]);
    }
    assert forall|i: int| 0 <= i < q.len() - 1 implies #[trigger] steps(g, q, i) by {
        assert(steps(g, p, i));
        assert(q[i] == p[i]);
        assert(q[i + 1] == p[i + 1]);
    }
}

/// The last step of a path of several recipes is a dependency within the graph.
pub proof fn lemma_last_step(g: Seq<Recipe>, p: Seq<Id>)
    requires
        is_path(g, p),
        p.len() >= 2,
    ensures
        dep_ids(lookup(g, p[p.len() - 2])).contains(p.last()),
        knows(g, p.last()),
        p.take(p.len() - 1).last() == p[p.len() - 2],
        p.take(p.len() - 1)[0] == p[0],
{
    let i = p.len() - 2;
    assert(steps(g, p, i));
    assert(knows(g, p[p.len() - 1]));
}

/// A set of recipes that leaves no dependency behind holds every dependency of its
/// recipes.
pub proof fn lemma_closed_step(g: Seq<Recipe>, out: Seq<Id>, u: Id, v: Id)
    requires
        closed(g, out, Seq::empty()),
        out.contains(u),
        dep_ids(lookup(g, u)).contains(v),
        knows(g, v),
    ensures
        out.contains(v),
{
    assert(!Seq::<Id>::empty().contains(v));
}

/// A set of recipes that leaves no dependency behind holds the end of every path that
/// starts in it.
pub proof fn lemma_closed_holds_path(g: Seq<Recipe>, out: Seq<Id>, p: Seq<Id>)
    requires
        closed(g, out, Seq::empty()),
        is_path(g, p),
        out.contains(p[0]),
    ensures
        out.contains(p.last()),
    decreases p.len(),
{
    if p.len() > 1 {
        let q = p.take(p.len() - 1);
        lemma_path_prefix(g, p, p.len() - 1);
        lemma_last_step(g, p);
        lemma_closed_holds_path(g, out, q);
        lemma_closed_step(g, out, q.last(), p.last());
    }
}

/// The recipes shown are exactly those that the root reaches.
pub proof fn lemma_shown_are_reached(g: Seq<Recipe>, root: Id, x: Id)
    ensures
        display_order(g, root).contains(x) <==> reaches(g, root, x),
{
    let nothing = Seq::<Id>::empty();
    let out = visit(g, root, nothing, nothing);
    let shown = display_order(g, root);
    assert(shown.contains(x) <==> out.contains(x)) by {
        if shown.contains(x) {
            let k = choose|k: int| 0 <= k < shown.len() && shown[k] == x;
            assert(out[out.len() - 1 - k] == x);
        }
        if out.contains(x) {
            let k = choose|k: int| 0 <= k < out.len() && out[k] == x;
            assert(shown[out.len() - 1 - k] == x);
        }
    }
    lemma_visit_reaches(g, root, nothing, nothing);
    if reaches(g, root, x) {
        let p = choose|p: Seq<Id>| is_path(g, p) && p[0] == root && p.last() == x;
        assert(knows(g, p[0]));
        assert(closed(g, nothing, nothing));
        lemma_visit_closes(g, root, nothing, nothing);
        lemma_closed_holds_path(g, out, p);
    }
}

/// No recipe is shown twice.
pub proof fn lemma_shown_once(g: Seq<Recipe>, root: Id)
    ensures
        display_order(g, root).no_duplicates(),
{
    let nothing = Seq::<Id>::empty();
    let out = visit(g, root, nothing, nothing);
    lemma_visit_grows(g, root, nothing, nothing);
    let shown = display_order(g, root);
    assert forall|a: int, b: int| 0 <= a < shown.len() && 0 <= b < shown.len() && a != b implies shown[a]
        != shown[b] by {
        assert(shown[a] == out[out.len() - 1 - a]);
        assert(shown[b] == out[out.len() - 1 - b]);
    }
}

/// Where the graph holds the root, the root is shown, and first.
pub proof fn lemma_root_shown_first(g: Seq<Recipe>, root: Id)
    requires
        knows(g, root),
    ensures
        display_order(g, root).len() > 0,
        display_order(g, root)[0] == root,
{
    let nothing = Seq::<Id>::empty();
    let out = visit(g, root, nothing, nothing);
    assert(out.last() == root);
}

/// No recipe of `g` depends on itself, directly or through others.
pub open spec fn acyclic(g: Seq<Recipe>) -> bool {
    forall|p: Seq<Id>| #[trigger] is_path(g, p) && p.len() >= 2 ==> p[0] != p.last()
}

/// In `done` every recipe stands after those of its dependencies that `done` holds.
pub open spec fn dependencies_first(g: Seq<Recipe>, done: Seq<Id>) -> bool {
    forall|i: int, j: int|
        #![trigger done[i], done[j]]
        0 <= i < done.len() && 0 <= j < done.len() && dep_ids(lookup(g, done[i])).contains(
            done[j],
        ) ==> j < i
}

/// A path that goes on along one more dependency.
pub proof fn lemma_path_extends(g: Seq<Recipe>, p: Seq<Id>, v: Id)
    requires
        is_path(g, p),
        dep_ids(lookup(g, p.last())).contains(v),
        knows(g, v),
    ensures
        is_path(g, p.push(v)),
{
    let q = p.push(v);
    assert forall|i: int| 0 <= i < q.len() implies knows(g, #[trigger] q[i]) by {
        if i < p.len() {
            assert(q[i] == p[i]);
        }
    }
    assert forall|i: int| 0 <= i < q.len() - 1 implies #[trigger] steps(g, q, i) by {
        assert(q[i] == p[i]);
        if i < p.len() - 1 {
            assert(steps(g, p, i));
            assert(q[i + 1] == p[i + 1]);
        } else {
            assert(q[i + 1] == v);
        }
    }
}

/// Without cycles, a recipe that `id` reaches does not depend on `id`.
pub proof fn lemma_no_way_back(g: Seq<Recipe>, id: Id, u: Id)
    requires
        acyclic(g),
        reaches(g, id, u),
        knows(g, id),
    ensures
        !dep_ids(lookup(g, u)).contains(id),
{
    if dep_ids(lookup(g, u)).contains(id) {
        let p = choose|p: Seq<Id>| is_path(g, p) && p[0] == id && p.last() == u;
        lemma_path_extends(g, p, id);
        let q = p.push(id);
        assert(is_path(g, q) && q.len() >= 2);
        assert(q[0] == p[0]);
        assert(q.last() == id);
        assert(false);
    }
}

/// Without cycles, a visit keeps every recipe behind its dependencies.
pub proof fn lemma_visit_orders(g: Seq<Recipe>, id: Id, done: Seq<Id>, path: Seq<Id>)
    requires
        acyclic(g),
        closed(g, done, path),
        dependencies_first(g, done),
    ensures
        dependencies_first(g, visit(g, id, done, path)),
    decreases unvisited(g, path), 0nat,
{
    if done.contains(id) || path.contains(id) || !knows(g, id) {
    } else {
        lemma_unvisited_shrinks(g, path, id);
        let deps = dep_ids(lookup(g, id));
        let longer = path.push(id);
        assert(closed(g, done, longer)) by {
            assert forall|u: Id, v: Id|
                #![trigger done.contains(u), dep_ids(lookup(g, u)).contains(v)]
                done.contains(u) && dep_ids(lookup(g, u)).contains(v) && knows(
                    g,
                    v,
                ) implies done.contains(v) || longer.contains(v) by {
                if path.contains(v) {
                    let k = choose|k: int| 0 <= k < path.len() && path[k] == v;
                    assert(longer[k] == v);
                }
            }
        }
        let inner = visit_each(g, deps, done, longer);
        lemma_visit_each_orders(g, deps, done, longer);
        lemma_visit_each_reaches(g, deps, done, longer);
        let out = inner.push(id);
        assert forall|i: int, j: int|
            #![trigger out[i], out[j]]
            0 <= i < out.len() && 0 <= j < out.len() && dep_ids(lookup(g, out[i])).contains(
                out[j],
            ) implies j < i by {
            if i < inner.len() && j < inner.len() {
                assert(out[i] == inner[i] && out[j] == inner[j]);
            } else if i < inner.len() {
                // a finished recipe that depends on `id`
                let u = inner[i];
                assert(out[i] == u && out[j] == id);
                assert(inner.contains(u));
                if done.contains(u) {
                    assert(done.contains(id) || path.contains(id));
                } else {
                    let m = choose|m: int| 0 <= m < deps.len() && reaches(g, deps[m], u);
                    assert(deps.contains(deps[m]));
                    lemma_reaches_step(g, id, deps[m], u);
                    lemma_no_way_back(g, id, u);
                }
            } else if j < inner.len() {
            } else {
                // `id` depends on itself
                lemma_reaches_self(g, id);
                lemma_no_way_back(g, id, id);
            }
        }
    }
}

/// The same for visits in turn.
pub proof fn lemma_visit_each_orders(g: Seq<Recipe>, deps: Seq<Id>, done: Seq<Id>, path: Seq<Id>)
    requires
        acyclic(g),
        closed(g, done, path),
        dependencies_first(g, done),
    ensures
        dependencies_first(g, visit_each(g, deps, done, path)),
    decreases unvisited(g, path), deps.len() + 1,
{
    if deps.len() == 0 {
    } else {
        let mid = visit(g, deps[0], done, path);
        lemma_visit_orders(g, deps[0], done, path);
        lemma_visit_closes(g, deps[0], done, path);
        lemma_visit_each_orders(g, deps.drop_first(), mid, path);
    }
}

/// Where no recipe depends on itself, directly or through others, every recipe is shown
/// before each recipe that it depends on.
pub proof fn lemma_shown_before_dependencies(g: Seq<Recipe>, root: Id, i: int, j: int)
    requires
        acyclic(g),
        0 <= i < display_order(g, root).len(),
        0 <= j < display_order(g, root).len(),
        dep_ids(lookup(g, display_order(g, root)[i])).contains(display_order(g, root)[j]),
    ensures
        i < j,
{
    let nothing = Seq::<Id>::empty();
    let out = visit(g, root, nothing, nothing);
    assert(closed(g, nothing, nothing));
    assert(dependencies_first(g, nothing));
    lemma_visit_orders(g, root, nothing, nothing);
    let a = out.len() - 1 - i;
    let b = out.len() - 1 - j;
    assert(display_order(g, root)[i] == out[a]);
    assert(display_order(g, root)[j] == out[b]);
    assert(dep_ids(lookup(g, out[a])).contains(out[b]));
    assert(b < a);
}

/// The identifier of the recipe that an element shows.
pub open spec fn shown_id(e: ElementView) -> Id {
    match e {
        ElementView::MainRecipe(r) => r.id@,
        ElementView::DependencyRecipe(_, r) => r.id@,
    }
}

/// Every recipe shown is a recipe of the graph.
pub proof fn lemma_shown_are_known(g: Seq<Recipe>, root: Id, k: int)
    requires
        0 <= k < display_order(g, root).len(),
    ensures
        knows(g, display_order(g, root)[k]),
{
    let nothing = Seq::<Id>::empty();
    let out = visit(g, root, nothing, nothing);
    lemma_visit_grows(g, root, nothing, nothing);
    assert(out[out.len() - 1 - k] == display_order(g, root)[k]);
    assert(out.contains(display_order(g, root)[k]));
}

/// The elements shown are the recipes of the display order, one element for each and in
/// that order: so no recipe has two blocks.
pub proof fn lemma_elements_follow_order(g: Seq<Recipe>)
    requires
        g.len() > 0,
    ensures
        recipe_order(g).map_values(|e: ElementView| shown_id(e)) == display_order(g, g[0].id@),
{
    let order = display_order(g, g[0].id@);
    let shown = recipe_order(g).map_values(|e: ElementView| shown_id(e));
    assert(shown.len() == order.len());
    assert forall|k: int| 0 <= k < order.len() implies shown[k] == order[k] by {
        lemma_shown_are_known(g, g[0].id@, k);
        lemma_lookup_known(g, order[k]);
        assert(recipe_order(g)[k] == element_at(g, order, k));
    }
    assert(shown =~= order);
}

/// Where a recipe of `order` has a dependency that names `id`, the first link to `id` is
/// there, and names `id`.
pub proof fn lemma_first_link(g: Seq<Recipe>, order: Seq<Id>, id: Id, m: int)
    requires
        0 <= m < order.len(),
        dep_ids(lookup(g, order[m])).contains(id),
    ensures
        first_link(g, order, id) matches Some(d) && d.recipe.id@ == id,
    decreases order.len(),
{
    let r = lookup(g, order[0]);
    if dep_ids(r).contains(id) {
        let s = dep_ids(r);
        let k = choose|k: int| 0 <= k < s.len() && s[k] == id;
        lemma_first_exists(s, id, k);
        assert(link_in(r, id) == Some(r.dependencies@[first_index(s, id)]));
    } else {
        assert(m > 0);
        assert(order.drop_first()[m - 1] == order[m]);
        lemma_first_link(g, order.drop_first(), id, m - 1);
    }
}

/// Every element but the first comes with a dependency that names its recipe.
pub proof fn lemma_elements_carry_links(g: Seq<Recipe>, k: int)
    requires
        g.len() > 0,
        0 < k < display_order(g, g[0].id@).len(),
    ensures
        recipe_order(g)[k] matches ElementView::DependencyRecipe(d, r) && d.recipe.id@
            == display_order(g, g[0].id@)[k] && r == lookup(g, display_order(g, g[0].id@)[k]),
{
    let root = g[0].id@;
    let order = display_order(g, root);
    let x = order[k];
    assert(ids_of(g)[0] == root);
    lemma_root_shown_first(g, root);
    lemma_shown_once(g, root);
    assert(order[0] != order[k]);
    assert(order.contains(x));
    lemma_shown_are_reached(g, root, x);
    let p = choose|p: Seq<Id>| is_path(g, p) && p[0] == root && p.last() == x;
    assert(p.len() >= 2);
    lemma_path_prefix(g, p, p.len() - 1);
    lemma_last_step(g, p);
    let u = p[p.len() - 2];
    let q = p.take(p.len() - 1);
    assert(is_path(g, q) && q[0] == root && q.last() == u);
    lemma_shown_are_reached(g, root, u);
    let m = choose|m: int| 0 <= m < order.len() && order[m] == u;
    lemma_first_link(g, order, x, m);
    assert(recipe_order(g)[k] == element_at(g, order, k));
}

} // verus!
