//! The resolver against a server: what it knows, once nothing is left to ask, is exactly
//! what the root recipe reaches on the server.

use crate::graph::{
    collect_missing, dep_ids, distinct, first_index, frontier, ids_of, knows, lemma_lookup_known,
    lookup, referenced,
};
use crate::model::{Id, Recipe};
use crate::reach::{
    is_path, lemma_last_step, lemma_path_extends, lemma_path_prefix, lemma_reaches_self, reaches,
    steps,
};
use crate::resolver::{
    expected, insert_new, next_state, settled, ActionView, Phase, RecipeWindowActions,
    RecipeWindowState, WindowView,
};
use crate::order::{display_order, recipe_order};
use crate::reach::lemma_shown_are_reached;
use vstd::seq_lib::{lemma_no_dup_in_concat, seq_to_set_is_finite};
use vstd::set_lib::lemma_len_subset;
use vstd::prelude::*;

verus! {

/// An identifier is referenced where a recipe of the graph lists it as a dependency.
pub proof fn lemma_referenced(g: Seq<Recipe>, x: Id)
    ensures
        referenced(g).contains(x) <==> exists|i: int|
            0 <= i < g.len() && dep_ids(#[trigger] g[i]).contains(x),
    decreases g.len(),
{
    let f = |r: Recipe| dep_ids(r);
    if g.len() == 0 {
        assert(g.map_values(f) =~= Seq::<Seq<Id>>::empty());
        assert(referenced(g) =~= Seq::<Id>::empty());
    } else {
        let most = g.drop_last();
        assert(most.push(g.last()) =~= g);
        most.lemma_flat_map_push(f, g.last());
        assert(referenced(g) =~= referenced(most) + dep_ids(g.last()));
        lemma_referenced(most, x);
        if referenced(g).contains(x) {
            let k = choose|k: int| 0 <= k < referenced(g).len() && referenced(g)[k] == x;
            if k < referenced(most).len() {
                assert(referenced(most)[k] == x);
                assert(referenced(most).contains(x));
                let i = choose|i: int| 0 <= i < most.len() && dep_ids(#[trigger] most[i]).contains(x);
                assert(most[i] == g[i]);
            } else {
                assert(dep_ids(g.last())[k - referenced(most).len()] == x);
                assert(dep_ids(g[g.len() - 1]).contains(x));
            }
        }
        if exists|i: int| 0 <= i < g.len() && dep_ids(#[trigger] g[i]).contains(x) {
            let i = choose|i: int| 0 <= i < g.len() && dep_ids(#[trigger] g[i]).contains(x);
            if i < most.len() {
                assert(most[i] == g[i]);
                assert(referenced(most).contains(x));
                let k = choose|k: int| 0 <= k < referenced(most).len() && referenced(most)[k] == x;
                assert(referenced(g)[k] == x);
            } else {
                let k = choose|k: int| 0 <= k < dep_ids(g[i]).len() && dep_ids(g[i])[k] == x;
                assert(referenced(g)[referenced(most).len() + k] == x);
            }
        }
    }
}

/// What is collected as missing: each identifier once, and exactly those of `refs`
/// that the graph lacks and that were not asked for.
pub proof fn lemma_collect_missing(refs: Seq<Id>, g: Seq<Recipe>, attempted: Seq<Id>)
    ensures
        collect_missing(refs, g, attempted).no_duplicates(),
        forall|x: Id| #[trigger]
            collect_missing(refs, g, attempted).contains(x) <==> refs.contains(x) && !knows(g, x)
                && !attempted.contains(x),
    decreases refs.len(),
{
    let out = collect_missing(refs, g, attempted);
    if refs.len() == 0 {
    } else {
        let most = refs.drop_last();
        let found = collect_missing(most, g, attempted);
        let last = refs.last();
        lemma_collect_missing(most, g, attempted);
        assert forall|x: Id| #[trigger] out.contains(x) <==> refs.contains(x) && !knows(g, x)
            && !attempted.contains(x) by {
            if out.contains(x) {
                let k = choose|k: int| 0 <= k < out.len() && out[k] == x;
                if k < found.len() {
                    assert(found[k] == x);
                    assert(found.contains(x));
                    let m = choose|m: int| 0 <= m < most.len() && most[m] == x;
                    assert(refs[m] == x);
                } else {
                    assert(x == last);
                    assert(refs[refs.len() - 1] == x);
                }
            }
            if refs.contains(x) && !knows(g, x) && !attempted.contains(x) {
                let m = choose|m: int| 0 <= m < refs.len() && refs[m] == x;
                if m < most.len() {
                    assert(most[m] == x);
                    assert(found.contains(x));
                    let k = choose|k: int| 0 <= k < found.len() && found[k] == x;
                    assert(out[k] == x);
                } else {
                    assert(x == last);
                    if !found.contains(x) {
                        assert(out[found.len() as int] == x);
                    } else {
                        let k = choose|k: int| 0 <= k < found.len() && found[k] == x;
                        assert(out[k] == x);
                    }
                }
            }
        }
    }
}

/// The frontier names each identifier once: those that a recipe of the graph lists as a
/// dependency, that the graph lacks, and that were not asked for.
pub proof fn lemma_frontier(g: Seq<Recipe>, attempted: Seq<Id>)
    ensures
        frontier(g, attempted).no_duplicates(),
        forall|x: Id| #[trigger]
            frontier(g, attempted).contains(x) <==> referenced(g).contains(x) && !knows(g, x)
                && !attempted.contains(x),
{
    lemma_collect_missing(referenced(g), g, attempted);
}

/// What adding fetched recipes does to a graph: it keeps what was there, takes only
/// what was fetched, and knows an identifier if the graph or the fetched recipes did.
pub proof fn lemma_insert_new(g: Seq<Recipe>, fetched: Seq<Recipe>)
    ensures
        g.is_prefix_of(insert_new(g, fetched)),
        forall|i: int|
            g.len() <= i < insert_new(g, fetched).len() ==> fetched.contains(
                #[trigger] insert_new(g, fetched)[i],
            ),
        distinct(g) ==> distinct(insert_new(g, fetched)),
        forall|x: Id| #[trigger]
            knows(insert_new(g, fetched), x) <==> knows(g, x) || knows(fetched, x),
    decreases fetched.len(),
{
    let out = insert_new(g, fetched);
    if fetched.len() == 0 {
        assert(ids_of(fetched) =~= Seq::<Id>::empty());
    } else {
        let most = fetched.drop_last();
        let last = fetched.last();
        let before = insert_new(g, most);
        lemma_insert_new(g, most);
        assert forall|i: int| g.len() <= i < out.len() implies fetched.contains(
            #[trigger] out[i],
        ) by {
            if i < before.len() {
                assert(most.contains(before[i]));
                let m = choose|m: int| 0 <= m < most.len() && most[m] == before[i];
                assert(fetched[m] == out[i]);
            } else {
                assert(fetched[fetched.len() - 1] == out[i]);
            }
        }
        assert forall|x: Id| #[trigger] knows(out, x) <==> knows(g, x) || knows(fetched, x) by {
            if knows(out, x) {
                let k = choose|k: int| 0 <= k < ids_of(out).len() && ids_of(out)[k] == x;
                if k < before.len() {
                    assert(ids_of(before)[k] == x);
                    assert(knows(before, x));
                    if !knows(g, x) {
                        let m = choose|m: int| 0 <= m < ids_of(most).len() && ids_of(most)[m] == x;
                        assert(ids_of(fetched)[m] == x);
                    }
                } else {
                    assert(ids_of(fetched)[fetched.len() - 1] == x);
                }
            }
            if knows(g, x) {
                assert(knows(before, x));
                let k = choose|k: int| 0 <= k < ids_of(before).len() && ids_of(before)[k] == x;
                assert(ids_of(out)[k] == x);
            }
            if knows(fetched, x) {
                let m = choose|m: int| 0 <= m < ids_of(fetched).len() && ids_of(fetched)[m] == x;
                if m < most.len() {
                    assert(ids_of(most)[m] == x);
                    assert(knows(before, x));
                    let k = choose|k: int|
                        0 <= k < ids_of(before).len() && ids_of(before)[k] == x;
                    assert(ids_of(out)[k] == x);
                } else {
                    assert(x == last.id@);
                    if knows(before, x) {
                        let k = choose|k: int|
                            0 <= k < ids_of(before).len() && ids_of(before)[k] == x;
                        assert(ids_of(out)[k] == x);
                    } else {
                        assert(ids_of(out)[before.len() as int] == x);
                    }
                }
            }
        }
        if distinct(g) {
            assert forall|a: int, b: int|
                0 <= a < ids_of(out).len() && 0 <= b < ids_of(out).len() && a != b implies ids_of(
                out,
            )[a] != ids_of(out)[b] by {
                if a < before.len() && b < before.len() {
                    assert(ids_of(before)[a] != ids_of(before)[b]);
                } else if a < before.len() {
                    assert(ids_of(before)[a] == ids_of(out)[a]);
                    assert(ids_of(before).contains(ids_of(before)[a]));
                } else {
                    assert(ids_of(before)[b] == ids_of(out)[b]);
                    assert(ids_of(before).contains(ids_of(before)[b]));
                }
            }
        }
    }
}

/// What a server that holds the recipes `server` sends for the identifiers `asked`:
/// the recipe of each identifier that it knows, in the order asked.
pub open spec fn served(server: Seq<Recipe>, asked: Seq<Id>) -> Seq<Recipe> {
    asked.filter(|id: Id| knows(server, id)).map_values(|id: Id| lookup(server, id))
}

/// `action` is what a server that holds the recipes `server` answers to what `state`
/// has asked for.
pub open spec fn answers(server: Seq<Recipe>, state: WindowView, action: ActionView) -> bool {
    match action {
        ActionView::UpdateRecipe(root, recipe) => knows(server, root) && recipe == lookup(
            server,
            root,
        ),
        ActionView::RootFailed(root, _) => !knows(server, root),
        ActionView::UpdateDependencies(_, fetched) => fetched == served(server, state.pending),
    }
}

/// What holds of a resolution that has been fed the answers of one server from the
/// start.
pub open spec fn faithful(server: Seq<Recipe>, state: WindowView) -> bool {
    let asked = state.attempted + state.pending;
    &&& state.phase == Phase::AwaitingRoot ==> state.recipes.len() == 0 && state.attempted.len()
        == 0 && state.pending == seq![state.root]
    &&& state.phase == Phase::RootNotFound ==> state.recipes.len() == 0 && state.pending.len()
        == 0
    &&& state.phase == Phase::Resolving ==> state.pending.len() > 0
    &&& state.phase == Phase::Complete ==> state.pending.len() == 0
    &&& state.phase == Phase::Resolving || state.phase == Phase::Complete ==> {
        &&& state.recipes.len() > 0
        &&& state.recipes[0].id@ == state.root
        &&& state.pending == frontier(state.recipes, state.attempted)
    }
    &&& distinct(state.recipes)
    &&& forall|i: int|
        0 <= i < state.recipes.len() ==> {
            &&& knows(server, (#[trigger] state.recipes[i]).id@)
            &&& lookup(server, state.recipes[i].id@) == state.recipes[i]
            &&& reaches(server, state.root, state.recipes[i].id@)
        }
    &&& forall|x: Id| #[trigger]
        state.attempted.contains(x) ==> knows(state.recipes, x) || !knows(server, x)
    &&& asked.no_duplicates()
    &&& forall|x: Id| #[trigger]
        asked.contains(x) ==> x == state.root || referenced(server).contains(x)
}

/// A resolution that has just begun is faithful to any server.
pub proof fn lemma_start_faithful(server: Seq<Recipe>, root: Id)
    ensures
        faithful(
            server,
            WindowView {
                root,
                phase: Phase::AwaitingRoot,
                recipes: Seq::empty(),
                attempted: Seq::empty(),
                pending: seq![root],
            },
        ),
{
    let asked = Seq::<Id>::empty() + seq![root];
    assert(asked =~= seq![root]);
    assert(ids_of(Seq::<Recipe>::empty()) =~= Seq::<Id>::empty());
}

/// Whatever a resolution is told, it stays well formed.
pub proof fn lemma_next_state_wf(state: WindowView, action: ActionView)
    requires
        state.wf(),
    ensures
        next_state(state, action).wf(),
{
    if expected(state, action) {
        let attempted = state.attempted + state.pending;
        match action {
            ActionView::UpdateRecipe(_, recipe) => {
                let recipes = seq![recipe];
                assert(ids_of(recipes) =~= seq![recipe.id@]);
                lemma_settled_wf(state.root, recipes, attempted);
            },
            ActionView::RootFailed(_, _) => {
                let after = next_state(state, action);
                assert(after.attempted + after.pending =~= attempted);
            },
            ActionView::UpdateDependencies(_, fetched) => {
                lemma_insert_new(state.recipes, fetched);
                lemma_settled_wf(state.root, insert_new(state.recipes, fetched), attempted);
            },
        }
    }
}

/// Closing a round leaves a resolution well formed.
pub proof fn lemma_settled_wf(root: Id, recipes: Seq<Recipe>, attempted: Seq<Id>)
    requires
        recipes.len() > 0,
        distinct(recipes),
        attempted.no_duplicates(),
    ensures
        settled(root, recipes, attempted).wf(),
{
    let next = frontier(recipes, attempted);
    lemma_frontier(recipes, attempted);
    assert(attempted.disjoint(next)) by {
        assert forall|i: int, j: int|
            0 <= i < attempted.len() && 0 <= j < next.len() implies attempted[i] != next[j] by {
            assert(next.contains(next[j]));
            assert(attempted.contains(attempted[i]));
        }
    }
    lemma_no_dup_in_concat(attempted, next);
}

/// What the server sends is what it holds under the identifiers asked for, and it sends
/// a recipe for each identifier asked for that it knows.
pub proof fn lemma_served(server: Seq<Recipe>, asked: Seq<Id>)
    ensures
        forall|k: int|
            0 <= k < served(server, asked).len() ==> {
                &&& knows(server, (#[trigger] served(server, asked)[k]).id@)
                &&& lookup(server, served(server, asked)[k].id@) == served(server, asked)[k]
                &&& asked.contains(served(server, asked)[k].id@)
            },
        forall|x: Id|
            asked.contains(x) && knows(server, x) ==> #[trigger] knows(served(server, asked), x),
{
    let pred = |id: Id| knows(server, id);
    let wanted = asked.filter(pred);
    let out = served(server, asked);
    assert forall|k: int| 0 <= k < out.len() implies {
        &&& knows(server, (#[trigger] out[k]).id@)
        &&& lookup(server, out[k].id@) == out[k]
        &&& asked.contains(out[k].id@)
    } by {
        asked.lemma_filter_pred(pred, k);
        assert(wanted.contains(wanted[k]));
        asked.lemma_filter_contains_rev(pred, wanted[k]);
        assert(out[k] == lookup(server, wanted[k]));
        lemma_lookup_known(server, wanted[k]);
    }
    assert forall|x: Id| asked.contains(x) && knows(server, x) implies #[trigger] knows(
        out,
        x,
    ) by {
        let m = choose|m: int| 0 <= m < asked.len() && asked[m] == x;
        asked.lemma_filter_contains(pred, m);
        let k = choose|k: int| 0 <= k < wanted.len() && wanted[k] == x;
        lemma_lookup_known(server, x);
        assert(ids_of(out)[k] == x);
    }
}

/// What a recipe taken from the server refers to, the server's recipes refer to.
pub proof fn lemma_referenced_on_server(server: Seq<Recipe>, r: Recipe, x: Id)
    requires
        knows(server, r.id@),
        lookup(server, r.id@) == r,
        dep_ids(r).contains(x),
    ensures
        referenced(server).contains(x),
{
    lemma_lookup_known(server, r.id@);
    let j = first_index(ids_of(server), r.id@);
    assert(dep_ids(server[j]).contains(x));
    lemma_referenced(server, x);
}

/// Closing a round leaves a resolution faithful, given that what it knows then comes
/// from the server and is reached from the root, and what it has asked for is accounted
/// for.
pub proof fn lemma_settled_faithful(
    server: Seq<Recipe>,
    root: Id,
    recipes: Seq<Recipe>,
    attempted: Seq<Id>,
)
    requires
        recipes.len() > 0,
        recipes[0].id@ == root,
        distinct(recipes),
        forall|i: int|
            0 <= i < recipes.len() ==> {
                &&& knows(server, (#[trigger] recipes[i]).id@)
                &&& lookup(server, recipes[i].id@) == recipes[i]
                &&& reaches(server, root, recipes[i].id@)
            },
        forall|x: Id| #[trigger] attempted.contains(x) ==> knows(recipes, x) || !knows(server, x),
        attempted.no_duplicates(),
        forall|x: Id| #[trigger] attempted.contains(x) ==> x == root || referenced(server).contains(x),
    ensures
        faithful(server, settled(root, recipes, attempted)),
{
    let next = frontier(recipes, attempted);
    let after = settled(root, recipes, attempted);
    let asked = attempted + next;
    lemma_frontier(recipes, attempted);
    assert(attempted.disjoint(next)) by {
        assert forall|i: int, j: int|
            0 <= i < attempted.len() && 0 <= j < next.len() implies attempted[i] != next[j] by {
            assert(next.contains(next[j]));
            assert(attempted.contains(attempted[i]));
        }
    }
    lemma_no_dup_in_concat(attempted, next);
    assert forall|x: Id| #[trigger] asked.contains(x) implies x == root || referenced(
        server,
    ).contains(x) by {
        let k = choose|k: int| 0 <= k < asked.len() && asked[k] == x;
        if k < attempted.len() {
            assert(attempted[k] == x);
            assert(attempted.contains(x));
        } else {
            assert(next[k - attempted.len()] == x);
            assert(next.contains(x));
            lemma_referenced(recipes, x);
            let i = choose|i: int| 0 <= i < recipes.len() && dep_ids(#[trigger] recipes[i]).contains(x);
            lemma_referenced_on_server(server, recipes[i], x);
        }
    }
    assert(after.attempted + after.pending == asked);
}

/// Fed the answer of the server, a faithful resolution stays faithful.
pub proof fn lemma_step_faithful(server: Seq<Recipe>, state: WindowView, action: ActionView)
    requires
        faithful(server, state),
        expected(state, action) ==> answers(server, state, action),
    ensures
        faithful(server, next_state(state, action)),
{
    if expected(state, action) {
        let attempted = state.attempted + state.pending;
        match action {
            ActionView::UpdateRecipe(_, recipe) => {
                let recipes = seq![recipe];
                assert(attempted =~= seq![state.root]);
                lemma_lookup_known(server, state.root);
                lemma_reaches_self(server, state.root);
                assert(ids_of(recipes) =~= seq![state.root]);
                assert forall|x: Id| #[trigger] attempted.contains(x) implies knows(recipes, x)
                    || !knows(server, x) by {
                    assert(ids_of(recipes)[0] == x);
                }
                lemma_settled_faithful(server, state.root, recipes, attempted);
            },
            ActionView::RootFailed(_, _) => {
                let after = next_state(state, action);
                assert(attempted =~= seq![state.root]);
                assert(after.attempted + after.pending =~= attempted);
                assert(ids_of(after.recipes) =~= Seq::<Id>::empty());
            },
            ActionView::UpdateDependencies(_, fetched) => {
                let recipes = insert_new(state.recipes, fetched);
                lemma_insert_new(state.recipes, fetched);
                lemma_served(server, state.pending);
                lemma_frontier(state.recipes, state.attempted);
                assert(recipes[0] == state.recipes[0]);
                assert forall|i: int| 0 <= i < recipes.len() implies {
                    &&& knows(server, (#[trigger] recipes[i]).id@)
                    &&& lookup(server, recipes[i].id@) == recipes[i]
                    &&& reaches(server, state.root, recipes[i].id@)
                } by {
                    if i < state.recipes.len() {
                        assert(recipes[i] == state.recipes[i]);
                    } else {
                        let r = recipes[i];
                        assert(fetched.contains(r));
                        let k = choose|k: int| 0 <= k < fetched.len() && fetched[k] == r;
                        assert(state.pending.contains(r.id@));
                        lemma_referenced(state.recipes, r.id@);
                        let u = choose|u: int|
                            0 <= u < state.recipes.len() && dep_ids(
                                #[trigger] state.recipes[u],
                            ).contains(r.id@);
                        let via = state.recipes[u];
                        let p = choose|p: Seq<Id>|
                            is_path(server, p) && p[0] == state.root && p.last() == via.id@;
                        lemma_path_extends(server, p, r.id@);
                        let q = p.push(r.id@);
                        assert(q[0] == p[0]);
                        assert(is_path(server, q) && q[0] == state.root && q.last() == r.id@);
                    }
                }
                assert forall|x: Id| #[trigger] attempted.contains(x) implies knows(recipes, x)
                    || !knows(server, x) by {
                    let k = choose|k: int| 0 <= k < attempted.len() && attempted[k] == x;
                    if k < state.attempted.len() {
                        assert(state.attempted[k] == x);
                        assert(state.attempted.contains(x));
                    } else {
                        assert(state.pending[k - state.attempted.len()] == x);
                        assert(state.pending.contains(x));
                        if knows(server, x) {
                            assert(knows(fetched, x));
                        }
                    }
                }
                lemma_settled_faithful(server, state.root, recipes, attempted);
            },
        }
    }
}

/// What a faithful resolution knows under an identifier is what the server holds
/// under it.
pub proof fn lemma_same_lookup(server: Seq<Recipe>, state: WindowView, id: Id)
    requires
        faithful(server, state),
        knows(state.recipes, id),
    ensures
        knows(server, id),
        lookup(state.recipes, id) == lookup(server, id),
{
    lemma_lookup_known(state.recipes, id);
    let i = first_index(ids_of(state.recipes), id);
    assert(state.recipes[i].id@ == id);
}

/// Once nothing is left to ask, a faithful resolution knows the end of every path that
/// leaves the root on the server.
pub proof fn lemma_known_along(server: Seq<Recipe>, state: WindowView, p: Seq<Id>)
    requires
        faithful(server, state),
        state.phase == Phase::Complete,
        is_path(server, p),
        p[0] == state.root,
    ensures
        knows(state.recipes, p.last()),
    decreases p.len(),
{
    if p.len() == 1 {
        assert(ids_of(state.recipes)[0] == state.root);
    } else {
        let q = p.take(p.len() - 1);
        lemma_path_prefix(server, p, p.len() - 1);
        lemma_last_step(server, p);
        lemma_known_along(server, state, q);
        let u = q.last();
        let v = p.last();
        lemma_same_lookup(server, state, u);
        lemma_lookup_known(state.recipes, u);
        let i = first_index(ids_of(state.recipes), u);
        assert(dep_ids(state.recipes[i]).contains(v));
        lemma_referenced(state.recipes, v);
        lemma_frontier(state.recipes, state.attempted);
        assert(state.pending =~= Seq::<Id>::empty());
        if !knows(state.recipes, v) {
            assert(!frontier(state.recipes, state.attempted).contains(v));
            assert(state.attempted.contains(v));
        }
    }
}

/// Once nothing is left to ask, a resolution that was fed the answers of one server
/// knows exactly the recipes that the root reaches on that server: none more and none
/// fewer.
pub proof fn lemma_complete_closure(server: Seq<Recipe>, state: WindowView, x: Id)
    requires
        faithful(server, state),
        state.phase == Phase::Complete,
    ensures
        knows(state.recipes, x) <==> reaches(server, state.root, x),
{
    if knows(state.recipes, x) {
        let i = choose|i: int| 0 <= i < ids_of(state.recipes).len() && ids_of(state.recipes)[i] == x;
        assert(state.recipes[i].id@ == x);
    }
    if reaches(server, state.root, x) {
        let p = choose|p: Seq<Id>| is_path(server, p) && p[0] == state.root && p.last() == x;
        lemma_known_along(server, state, p);
    }
}

/// Once nothing is left to ask, what is shown is exactly what the root reaches on the
/// server.
pub proof fn lemma_shown_is_closure(server: Seq<Recipe>, state: WindowView, x: Id)
    requires
        faithful(server, state),
        state.phase == Phase::Complete,
    ensures
        display_order(state.recipes, state.root).contains(x) <==> reaches(server, state.root, x),
{
    let g = state.recipes;
    lemma_shown_are_reached(g, state.root, x);
    if reaches(g, state.root, x) {
        let p = choose|p: Seq<Id>| is_path(g, p) && p[0] == state.root && p.last() == x;
        assert forall|i: int| 0 <= i < p.len() implies knows(server, #[trigger] p[i]) by {
            lemma_same_lookup(server, state, p[i]);
        }
        assert forall|i: int| 0 <= i < p.len() - 1 implies #[trigger] steps(server, p, i) by {
            assert(steps(g, p, i));
            lemma_same_lookup(server, state, p[i]);
        }
        assert(is_path(server, p));
    }
    if reaches(server, state.root, x) {
        let p = choose|p: Seq<Id>| is_path(server, p) && p[0] == state.root && p.last() == x;
        assert forall|i: int| 0 <= i < p.len() implies knows(g, #[trigger] p[i]) by {
            lemma_path_prefix(server, p, i + 1);
            assert(p.take(i + 1)[0] == p[0]);
            assert(p.take(i + 1).last() == p[i]);
            lemma_known_along(server, state, p.take(i + 1));
        }
        assert forall|i: int| 0 <= i < p.len() - 1 implies #[trigger] steps(g, p, i) by {
            assert(steps(server, p, i));
            assert(knows(g, p[i]));
            lemma_same_lookup(server, state, p[i]);
        }
        assert(is_path(g, p));
    }
}

/// A round that is open asks for something, so closing it adds to what has been asked
/// for.
pub proof fn lemma_round_adds(server: Seq<Recipe>, state: WindowView, action: ActionView)
    requires
        faithful(server, state),
        state.phase == Phase::AwaitingRoot || state.phase == Phase::Resolving,
        expected(state, action),
    ensures
        next_state(state, action).attempted.len() > state.attempted.len(),
{
}

/// Nothing is asked for twice, and only the root and what the server's recipes refer to
/// is asked for: the identifiers asked for number no more than those references and one.
/// With `lemma_round_adds` this bounds the rounds of a resolution.
pub proof fn lemma_rounds_bounded(server: Seq<Recipe>, state: WindowView)
    requires
        faithful(server, state),
    ensures
        (state.attempted + state.pending).no_duplicates(),
        state.attempted.len() + state.pending.len() <= referenced(server).len() + 1,
{
    let asked = state.attempted + state.pending;
    let all = referenced(server).push(state.root);
    asked.unique_seq_to_set();
    all.lemma_cardinality_of_set();
    seq_to_set_is_finite(all);
    assert forall|x: Id| asked.to_set().contains(x) implies all.to_set().contains(x) by {
        assert(asked.contains(x));
        if x == state.root {
            assert(all[all.len() - 1] == x);
        } else {
            let k = choose|k: int| 0 <= k < referenced(server).len() && referenced(server)[k] == x;
            assert(all[k] == x);
        }
    }
    lemma_len_subset(asked.to_set(), all.to_set());
}

/// A resolution for `root` that has just begun.
pub open spec fn fresh(root: Id) -> WindowView {
    WindowView {
        root,
        phase: Phase::AwaitingRoot,
        recipes: Seq::empty(),
        attempted: Seq::empty(),
        pending: seq![root],
    }
}

/// The state that `state` comes to on the answers `actions`, taken in turn.
pub open spec fn replay(state: WindowView, actions: Seq<ActionView>) -> WindowView
    decreases actions.len(),
{
    if actions.len() == 0 {
        state
    } else {
        next_state(replay(state, actions.drop_last()), actions.last())
    }
}

/// Each of `actions` that is taken in, is what the server answers at that point.
pub open spec fn answered_by(server: Seq<Recipe>, state: WindowView, actions: Seq<ActionView>) -> bool
    decreases actions.len(),
{
    actions.len() > 0 ==> {
        let before = replay(state, actions.drop_last());
        &&& answered_by(server, state, actions.drop_last())
        &&& expected(before, actions.last()) ==> answers(server, before, actions.last())
    }
}

/// However many answers of one server a resolution has taken in since it began, it is
/// faithful to that server.
pub proof fn lemma_replay_faithful(server: Seq<Recipe>, root: Id, actions: Seq<ActionView>)
    requires
        answered_by(server, fresh(root), actions),
    ensures
        faithful(server, replay(fresh(root), actions)),
    decreases actions.len(),
{
    if actions.len() == 0 {
        lemma_start_faithful(server, root);
    } else {
        lemma_replay_faithful(server, root, actions.drop_last());
        lemma_step_faithful(server, replay(fresh(root), actions.drop_last()), actions.last());
    }
}

/// How many of the answers `actions` the resolution took in: an answer that it did not
/// wait for is dropped and does not count.
pub open spec fn taken_in(state: WindowView, actions: Seq<ActionView>) -> nat
    decreases actions.len(),
{
    if actions.len() == 0 {
        0
    } else {
        let before = taken_in(state, actions.drop_last());
        if expected(replay(state, actions.drop_last()), actions.last()) {
            before + 1
        } else {
            before
        }
    }
}

/// A resolution takes in no more answers than it has asked for identifiers.
pub proof fn lemma_taken_in_asked(server: Seq<Recipe>, root: Id, actions: Seq<ActionView>)
    requires
        answered_by(server, fresh(root), actions),
    ensures
        taken_in(fresh(root), actions) <= replay(fresh(root), actions).attempted.len(),
    decreases actions.len(),
{
    if actions.len() > 0 {
        let before = replay(fresh(root), actions.drop_last());
        lemma_taken_in_asked(server, root, actions.drop_last());
        lemma_replay_faithful(server, root, actions.drop_last());
        if expected(before, actions.last()) {
            lemma_round_adds(server, before, actions.last());
        }
    }
}

/// A resolution ends: fed the answers of one server, it takes in no more of them than
/// the server's recipes hold references, and one for the root. Every request follows an
/// answer that was taken in or the start, so no more rounds than that are ever asked for.
pub proof fn lemma_resolution_ends(server: Seq<Recipe>, root: Id, actions: Seq<ActionView>)
    requires
        answered_by(server, fresh(root), actions),
    ensures
        taken_in(fresh(root), actions) <= referenced(server).len() + 1,
{
    lemma_taken_in_asked(server, root, actions);
    lemma_replay_faithful(server, root, actions);
    lemma_rounds_bounded(server, replay(fresh(root), actions));
}

/// Of what a faithful resolution has asked for, it lacks exactly what the server lacks:
/// the dependencies that it reports as failed are those that the server does not hold.
pub proof fn lemma_failed_are_missing(server: Seq<Recipe>, state: WindowView, x: Id)
    requires
        faithful(server, state),
        state.attempted.contains(x),
    ensures
        !knows(state.recipes, x) <==> !knows(server, x),
{
    if knows(state.recipes, x) {
        lemma_same_lookup(server, state, x);
    }
}

/// A resolution that began for `root`, took in answers of one server and has nothing
/// left to ask, knows exactly what `root` reaches on that server, and shows exactly that.
pub proof fn lemma_resolution_is_closure(
    server: Seq<Recipe>,
    root: Id,
    actions: Seq<ActionView>,
    x: Id,
)
    requires
        answered_by(server, fresh(root), actions),
        replay(fresh(root), actions).phase == Phase::Complete,
    ensures
        knows(replay(fresh(root), actions).recipes, x) <==> reaches(server, root, x),
        display_order(replay(fresh(root), actions).recipes, root).contains(x) <==> reaches(
            server,
            root,
            x,
        ),
{
    let end = replay(fresh(root), actions);
    lemma_replay_faithful(server, root, actions);
    lemma_replay_keeps_root(fresh(root), actions);
    lemma_complete_closure(server, end, x);
    lemma_shown_is_closure(server, end, x);
}

/// Answers do not change what a resolution is for.
pub proof fn lemma_replay_keeps_root(state: WindowView, actions: Seq<ActionView>)
    ensures
        replay(state, actions).root == state.root,
    decreases actions.len(),
{
    if actions.len() > 0 {
        lemma_replay_keeps_root(state, actions.drop_last());
    }
}

/// Two resolutions that hold the same and take in the same answer come to hold the same,
/// and show the same recipes in the same order.
pub proof fn lemma_same_answer_same_result(
    a: RecipeWindowState,
    b: RecipeWindowState,
    to_a: RecipeWindowActions,
    to_b: RecipeWindowActions,
)
    requires
        a@ == b@,
        to_a@ == to_b@,
    ensures
        next_state(a@, to_a@) == next_state(b@, to_b@),
        recipe_order(next_state(a@, to_a@).recipes) == recipe_order(
            next_state(b@, to_b@).recipes,
        ),
{
}

/// Two resolutions of one root that take in the same answers come to hold the same, and
/// show the same recipes in the same order.
pub proof fn lemma_same_answers_same_result(root: Id, first: Seq<ActionView>, second: Seq<ActionView>)
    requires
        first == second,
    ensures
        replay(fresh(root), first) == replay(fresh(root), second),
        recipe_order(replay(fresh(root), first).recipes) == recipe_order(
            replay(fresh(root), second).recipes,
        ),
{
}

} // verus!
