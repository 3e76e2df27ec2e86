//! Recipes seen as a graph: a recipe points at each recipe it depends on.

use crate::model::{Dependency, Id, Recipe};
use vstd::prelude::*;

verus! {

/// The identifiers in a list of strings.
pub open spec fn ids(v: Seq<String>) -> Seq<Id> {
    v.map_values(|s: String| s@)
}

/// The identifiers of the recipes that `r` depends on, in the order in which it lists them.
pub open spec fn dep_ids(r: Recipe) -> Seq<Id> {
    r.dependencies@.map_values(|d: Dependency| d.recipe.id@)
}

/// The identifiers of the recipes in `g`, in order.
pub open spec fn ids_of(g: Seq<Recipe>) -> Seq<Id> {
    g.map_values(|r: Recipe| r.id@)
}

/// No two recipes of `g` share an identifier.
pub open spec fn distinct(g: Seq<Recipe>) -> bool {
    ids_of(g).no_duplicates()
}

/// `g` holds a recipe with identifier `id`.
pub open spec fn knows(g: Seq<Recipe>, id: Id) -> bool {
    ids_of(g).contains(id)
}

/// The first place at which `id` occurs in `s`.
pub open spec fn first_index(s: Seq<Id>, id: Id) -> int
    recommends
        s.contains(id),
{
    choose|i: int| 0 <= i < s.len() && s[i] == id && forall|k: int| 0 <= k < i ==> s[k] != id
}

/// The recipe of `g` with identifier `id`: the first one, should several share it.
pub open spec fn lookup(g: Seq<Recipe>, id: Id) -> Recipe
    recommends
        knows(g, id),
{
    g[first_index(ids_of(g), id)]
}

/// Every identifier that some recipe of `g` lists as a dependency, recipe by recipe.
pub open spec fn referenced(g: Seq<Recipe>) -> Seq<Id> {
    g.flat_map(|r: Recipe| dep_ids(r))
}

/// Of the identifiers `refs`, those that `g` does not hold and that were not asked for
/// before, each once, in the order of their first occurrence.
pub open spec fn collect_missing(refs: Seq<Id>, g: Seq<Recipe>, attempted: Seq<Id>) -> Seq<Id>
    decreases refs.len(),
{
    if refs.len() == 0 {
        Seq::empty()
    } else {
        let found = collect_missing(refs.drop_last(), g, attempted);
        let x = refs.last();
        if knows(g, x) || attempted.contains(x) || found.contains(x) {
            found
        } else {
            found.push(x)
        }
    }
}

/// The frontier: what the recipes of `g` refer to and `g` lacks, without what was
/// asked for before.
pub open spec fn frontier(g: Seq<Recipe>, attempted: Seq<Id>) -> Seq<Id> {
    collect_missing(referenced(g), g, attempted)
}

/// Whether `id` occurs in `v`.
pub fn contains_id(v: &Vec<String>, id: &String) -> (found: bool)
    ensures
        found == ids(v@).contains(id@),
{
    let mut i: usize = 0;
    while i < v.len()
        invariant
            i <= v.len(),
            forall|k: int| 0 <= k < i ==> ids(v@)[k] != id@,
        decreases v.len() - i,
    {
        if v[i] == *id {
            assert(ids(v@)[i as int] == id@);
            return true;
        }
        i += 1;
    }
    false
}

/// The place of the recipe with identifier `id` in `g`, if there is one.
pub fn find_recipe(g: &Vec<Recipe>, id: &String) -> (place: Option<usize>)
    ensures
        place is Some <==> knows(g@, id@),
        place matches Some(i) ==> i < g.len() && g[i as int].id@ == id@ && forall|k: int|
            0 <= k < i ==> ids_of(g@)[k] != id@,
{
    let mut i: usize = 0;
    while i < g.len()
        invariant
            i <= g.len(),
            forall|k: int| 0 <= k < i ==> ids_of(g@)[k] != id@,
        decreases g.len() - i,
    {
        if g[i].id == *id {
            assert(ids_of(g@)[i as int] == id@);
            return Some(i);
        }
        i += 1;
    }
    None
}

/// The first recipe of `g` that carries an identifier is the one that `lookup` names.
pub proof fn lemma_lookup_at(g: Seq<Recipe>, i: int)
    requires
        0 <= i < g.len(),
        forall|k: int| 0 <= k < i ==> ids_of(g)[k] != g[i].id@,
    ensures
        knows(g, g[i].id@),
        lookup(g, g[i].id@) == g[i],
{
    let s = ids_of(g);
    let id = g[i].id@;
    assert(s[i] == id);
    assert(s.contains(id));
    let j = first_index(s, id);
    assert(0 <= j < s.len() && s[j] == id && forall|k: int| 0 <= k < j ==> s[k] != id);
    assert(i == j);
}

/// The recipe that `lookup` names carries the identifier that was asked for, and stands
/// in the graph.
pub proof fn lemma_lookup_known(g: Seq<Recipe>, id: Id)
    requires
        knows(g, id),
    ensures
        lookup(g, id).id@ == id,
        0 <= first_index(ids_of(g), id) < g.len(),
        g[first_index(ids_of(g), id)] == lookup(g, id),
{
    let s = ids_of(g);
    let k = choose|k: int| 0 <= k < s.len() && s[k] == id;
    lemma_first_exists(s, id, k);
}

/// Among the places up to `k` at which `id` occurs in `s`, one is the first.
pub proof fn lemma_first_exists(s: Seq<Id>, id: Id, k: int)
    requires
        0 <= k < s.len(),
        s[k] == id,
    ensures
        0 <= first_index(s, id) <= k,
        s[first_index(s, id)] == id,
        forall|m: int| 0 <= m < first_index(s, id) ==> s[m] != id,
    decreases k,
{
    if exists|m: int| 0 <= m < k && s[m] == id {
        let m = choose|m: int| 0 <= m < k && s[m] == id;
        lemma_first_exists(s, id, m);
    } else {
        assert(0 <= k < s.len() && s[k] == id && forall|m: int| 0 <= m < k ==> s[m] != id);
        let f = first_index(s, id);
        assert(0 <= f < s.len() && s[f] == id && forall|m: int| 0 <= m < f ==> s[m] != id);
        if f > k {
            assert(s[k] != id);
        }
    }
}

/// The references of the first `i + 1` recipes are those of the first `i` followed by
/// those of the next one.
pub proof fn lemma_referenced_step(g: Seq<Recipe>, i: int)
    requires
        0 <= i < g.len(),
    ensures
        referenced(g.take(i + 1)) == referenced(g.take(i)) + dep_ids(g[i]),
{
    g.lemma_flat_map_take_append(|r: Recipe| dep_ids(r), i);
}

/// The identifiers to ask the server for next: every dependency of a recipe of `g` that
/// `g` lacks and that is not in `attempted`, each once, in the order of first reference.
pub fn calc_missing(g: &Vec<Recipe>, attempted: &Vec<String>) -> (missing: Vec<String>)
    ensures
        ids(missing@) == frontier(g@, ids(attempted@)),
{
    let mut missing: Vec<String> = Vec::new();
    let mut i: usize = 0;
    assert(referenced(g@.take(0)) =~= Seq::<Id>::empty()) by {
        assert(g@.take(0) =~= Seq::<Recipe>::empty());
        reveal_with_fuel(Seq::flatten, 1);
    }
    assert(ids(missing@) =~= Seq::<Id>::empty());
    while i < g.len()
        invariant
            i <= g.len(),
            ids(missing@) == collect_missing(referenced(g@.take(i as int)), g@, ids(attempted@)),
        decreases g.len() - i,
    {
        let mut j: usize = 0;
        assert(dep_ids(g@[i as int]).take(0) =~= Seq::<Id>::empty());
        assert(referenced(g@.take(i as int)) + Seq::<Id>::empty() =~= referenced(
            g@.take(i as int),
        ));
        while j < g[i].dependencies.len()
            invariant
                i < g.len(),
                j <= g@[i as int].dependencies.len(),
                ids(missing@) == collect_missing(
                    referenced(g@.take(i as int)) + dep_ids(g@[i as int]).take(j as int),
                    g@,
                    ids(attempted@),
                ),
            decreases g@[i as int].dependencies.len() - j,
        {
            let ghost before = referenced(g@.take(i as int)) + dep_ids(g@[i as int]).take(
                j as int,
            );
            let ghost after = referenced(g@.take(i as int)) + dep_ids(g@[i as int]).take(
                j + 1,
            );
            let ghost old_missing = ids(missing@);
            let id = &g[i].dependencies[j].recipe.id;
            proof {
                assert(after.drop_last() =~= before);
                assert(after.last() == id@);
            }
            let known = find_recipe(g, id).is_some();
            if !known && !contains_id(attempted, id) && !contains_id(&missing, id) {
                missing.push(id.clone());
                assert(ids(missing@) =~= old_missing.push(id@));
            }
            j += 1;
        }
        proof {
            assert(dep_ids(g@[i as int]).take(j as int) =~= dep_ids(g@[i as int]));
            lemma_referenced_step(g@, i as int);
        }
        i += 1;
    }
    assert(g@.take(i as int) =~= g@);
    missing
}

} // verus!
