//! Resolving a recipe's dependencies round by round.
//!
//! The resolver performs no fetch itself. It is told what the server answered and says
//! what to ask next, so that whoever drives it may keep every fetch of a round in flight
//! at once and hand the answers back together.

use crate::closure::lemma_next_state_wf;
use crate::graph::{calc_missing, distinct, find_recipe, frontier, ids, ids_of, knows};
use crate::model::{clone_strings, Id, Recipe};
use vstd::prelude::*;

verus! {

/// How far the resolution of one root recipe has come.
#[derive(Clone, Copy, Debug, PartialEq, Eq, Structural)]
pub enum Phase {
    /// The root recipe has been asked for.
    AwaitingRoot,
    /// A round of dependencies has been asked for.
    Resolving,
    /// Nothing is left to ask for.
    Complete,
    /// The root recipe could not be fetched; there is nothing to show.
    RootNotFound,
}

/// The recipes known so far for one root recipe.
#[derive(Clone, Debug, PartialEq, Eq)]
pub struct RecipeWindowState {
    /// The recipe that the resolution is for.
    pub root: String,
    pub phase: Phase,
    /// The recipes fetched so far, the main one first; no identifier twice.
    pub recipes: Vec<Recipe>,
    /// Every identifier asked for in a round that has settled.
    pub attempted: Vec<String>,
    /// The identifiers asked for in the round in flight.
    pub pending: Vec<String>,
}

/// A `RecipeWindowState` as a specification value.
pub struct WindowView {
    pub root: Id,
    pub phase: Phase,
    pub recipes: Seq<Recipe>,
    pub attempted: Seq<Id>,
    pub pending: Seq<Id>,
}

impl WindowView {
    /// What holds of every resolution, whatever it is told: it knows no identifier twice
    /// and asks for none twice; while the root is awaited it knows nothing; where the
    /// root could not be had it knows nothing and asks for nothing; and once the root is
    /// there, what it asks for is the frontier, which is empty when it is complete and
    /// only then.
    pub open spec fn wf(self) -> bool {
        &&& distinct(self.recipes)
        &&& (self.attempted + self.pending).no_duplicates()
        &&& self.phase == Phase::AwaitingRoot ==> self.recipes.len() == 0 && self.attempted.len()
            == 0 && self.pending == seq![self.root]
        &&& self.phase == Phase::RootNotFound ==> self.recipes.len() == 0 && self.pending.len()
            == 0
        &&& self.phase == Phase::Resolving ==> self.pending.len() > 0
        &&& self.phase == Phase::Complete ==> self.pending.len() == 0
        &&& self.phase == Phase::Resolving || self.phase == Phase::Complete ==> {
            &&& self.recipes.len() > 0
            &&& self.pending == frontier(self.recipes, self.attempted)
        }
    }
}

impl View for RecipeWindowState {
    type V = WindowView;

    open spec fn view(&self) -> WindowView {
        WindowView {
            root: self.root@,
            phase: self.phase,
            recipes: self.recipes@,
            attempted: ids(self.attempted@),
            pending: ids(self.pending@),
        }
    }
}

/// What the server answered.
#[derive(Clone, Debug, PartialEq, Eq)]
pub enum RecipeWindowActions {
    /// The root recipe `.0` was fetched: it is `.1`.
    UpdateRecipe(String, Recipe),
    /// The root recipe `.0` could not be fetched; `.1` is the message that came instead.
    RootFailed(String, String),
    /// The round asked for the root recipe `.0` has settled; `.1` holds the recipes that
    /// came, in the order in which they were asked for. A fetch that failed brings none.
    UpdateDependencies(String, Vec<Recipe>),
}

/// A `RecipeWindowActions` as a specification value.
pub enum ActionView {
    UpdateRecipe(Id, Recipe),
    RootFailed(Id, Seq<char>),
    UpdateDependencies(Id, Seq<Recipe>),
}

impl View for RecipeWindowActions {
    type V = ActionView;

    open spec fn view(&self) -> ActionView {
        match *self {
            RecipeWindowActions::UpdateRecipe(root, recipe) => ActionView::UpdateRecipe(
                root@,
                recipe,
            ),
            RecipeWindowActions::RootFailed(root, message) => ActionView::RootFailed(
                root@,
                message@,
            ),
            RecipeWindowActions::UpdateDependencies(root, fetched) => ActionView::UpdateDependencies(
                root@,
                fetched@,
            ),
        }
    }
}

/// What is to be done next.
#[derive(Clone, Debug, PartialEq, Eq)]
pub enum Effect {
    /// Ask the server for these recipes, all at once, and report when all have settled.
    Fetch(Vec<String>),
    /// Every recipe that could be had is there: show them.
    Show,
    /// Report this message; there is nothing to show.
    Report(String),
    /// The answer belongs to no request that is open: drop it.
    Nothing,
}

/// An `Effect` as a specification value.
pub enum EffectView {
    Fetch(Seq<Id>),
    Show,
    Report(Seq<char>),
    Nothing,
}

impl View for Effect {
    type V = EffectView;

    open spec fn view(&self) -> EffectView {
        match *self {
            Effect::Fetch(wanted) => EffectView::Fetch(ids(wanted@)),
            Effect::Show => EffectView::Show,
            Effect::Report(message) => EffectView::Report(message@),
            Effect::Nothing => EffectView::Nothing,
        }
    }
}

/// `g` with each recipe of `fetched` added in turn, but for those whose identifier is
/// there already.
pub open spec fn insert_new(g: Seq<Recipe>, fetched: Seq<Recipe>) -> Seq<Recipe>
    decreases fetched.len(),
{
    if fetched.len() == 0 {
        g
    } else {
        let before = insert_new(g, fetched.drop_last());
        if knows(before, fetched.last().id@) {
            before
        } else {
            before.push(fetched.last())
        }
    }
}

/// The state once a round has settled with the recipes `recipes` known and `attempted`
/// asked for: the next round is the frontier, and the resolution is complete when the
/// frontier is empty.
pub open spec fn settled(root: Id, recipes: Seq<Recipe>, attempted: Seq<Id>) -> WindowView {
    let next = frontier(recipes, attempted);
    WindowView {
        root,
        phase: if next.len() == 0 {
            Phase::Complete
        } else {
            Phase::Resolving
        },
        recipes,
        attempted,
        pending: next,
    }
}

/// Whether `action` answers what `state` waits for.
pub open spec fn expected(state: WindowView, action: ActionView) -> bool {
    match action {
        ActionView::UpdateRecipe(root, _) => root == state.root && state.phase
            == Phase::AwaitingRoot,
        ActionView::RootFailed(root, _) => root == state.root && state.phase
            == Phase::AwaitingRoot,
        ActionView::UpdateDependencies(root, _) => root == state.root && state.phase
            == Phase::Resolving,
    }
}

/// The state that follows `state` on `action`.
pub open spec fn next_state(state: WindowView, action: ActionView) -> WindowView {
    if !expected(state, action) {
        state
    } else {
        match action {
            ActionView::UpdateRecipe(_, recipe) => settled(
                state.root,
                seq![recipe],
                state.attempted + state.pending,
            ),
            ActionView::RootFailed(_, _) => WindowView {
                phase: Phase::RootNotFound,
                attempted: state.attempted + state.pending,
                pending: Seq::empty(),
                ..state
            },
            ActionView::UpdateDependencies(_, fetched) => settled(
                state.root,
                insert_new(state.recipes, fetched),
                state.attempted + state.pending,
            ),
        }
    }
}

/// What is to be done once `state` has received `action`.
pub open spec fn next_effect(state: WindowView, action: ActionView) -> EffectView {
    if !expected(state, action) {
        EffectView::Nothing
    } else {
        match action {
            ActionView::RootFailed(_, message) => EffectView::Report(message),
            _ => {
                let after = next_state(state, action);
                if after.phase == Phase::Complete {
                    EffectView::Show
                } else {
                    EffectView::Fetch(after.pending)
                }
            },
        }
    }
}

/// Adds to `recipes` each recipe of `fetched` whose identifier is not there yet.
fn insert_fetched(recipes: &mut Vec<Recipe>, fetched: Vec<Recipe>)
    ensures
        final(recipes)@ == insert_new(old(recipes)@, fetched@),
{
    let ghost start = recipes@;
    let ghost all = fetched@;
    assert(all.take(0) =~= Seq::<Recipe>::empty());
    for recipe in it: fetched
        invariant
            it.seq() == all,
            recipes@ == insert_new(start, all.take(it.index() as int)),
    {
        let ghost upto = all.take(it.index() + 1);
        assert(upto.drop_last() =~= all.take(it.index() as int));
        assert(upto.last() == recipe);
        if find_recipe(recipes, &recipe.id).is_none() {
            recipes.push(recipe);
        }
    }
    assert(all.take(all.len() as int) =~= all);
}

impl RecipeWindowState {
    /// A resolution for the recipe `root`, with nothing known yet, and the request that
    /// opens it.
    pub fn start(root: String) -> (begun: (RecipeWindowState, Effect))
        ensures
            begun.0@ == (WindowView {
                root: root@,
                phase: Phase::AwaitingRoot,
                recipes: Seq::empty(),
                attempted: Seq::empty(),
                pending: seq![root@],
            }),
            begun.1@ == EffectView::Fetch(seq![root@]),
            begun.0@.wf(),
    {
        let mut pending: Vec<String> = Vec::new();
        pending.push(root.clone());
        let mut wanted: Vec<String> = Vec::new();
        wanted.push(root.clone());
        let state = RecipeWindowState {
            root,
            phase: Phase::AwaitingRoot,
            recipes: Vec::new(),
            attempted: Vec::new(),
            pending,
        };
        assert(ids(state.pending@) =~= seq![root@]);
        assert(ids(wanted@) =~= seq![root@]);
        assert(ids(state.attempted@) =~= Seq::<Id>::empty());
        assert(state@.attempted + state@.pending =~= seq![root@]);
        assert(ids_of(state@.recipes) =~= Seq::<Id>::empty());
        (state, Effect::Fetch(wanted))
    }

    /// Closes the round in flight: what was pending counts as asked for, the next round
    /// is the frontier, and the phase says whether anything is left to ask.
    fn settle(&mut self) -> (effect: Effect)
        ensures
            final(self)@ == settled(
                old(self)@.root,
                old(self)@.recipes,
                old(self)@.attempted + old(self)@.pending,
            ),
            effect@ == if final(self)@.phase == Phase::Complete {
                EffectView::Show
            } else {
                EffectView::Fetch(final(self)@.pending)
            },
    {
        let ghost before = ids(self.attempted@);
        let ghost asked = ids(self.pending@);
        self.attempted.append(&mut self.pending);
        assert(ids(self.attempted@) =~= before + asked);
        let next = calc_missing(&self.recipes, &self.attempted);
        if next.len() == 0 {
            self.phase = Phase::Complete;
            self.pending = next;
            Effect::Show
        } else {
            self.phase = Phase::Resolving;
            let wanted = clone_strings(&next);
            self.pending = next;
            Effect::Fetch(wanted)
        }
    }

    /// The identifiers that were asked for and brought no recipe: the dependencies that
    /// are missing from what is shown.
    pub fn failed_dependencies(&self) -> (failed: Vec<String>)
        ensures
            ids(failed@) == self@.attempted.filter(|x: Id| !knows(self@.recipes, x)),
    {
        let ghost pred = |x: Id| !knows(self@.recipes, x);
        let ghost all = ids(self.attempted@);
        let mut failed: Vec<String> = Vec::new();
        let mut i: usize = 0;
        proof {
            assert(all.take(0).filter(pred) =~= Seq::<Id>::empty()) by {
                reveal(Seq::filter);
            }
            assert(ids(failed@) =~= Seq::<Id>::empty());
        }
        while i < self.attempted.len()
            invariant
                i <= self.attempted.len(),
                all == ids(self.attempted@),
                pred == |x: Id| !knows(self@.recipes, x),
                ids(failed@) == all.take(i as int).filter(pred),
            decreases self.attempted.len() - i,
        {
            let ghost before = ids(failed@);
            proof {
                all.lemma_take_succ_push(i as int);
                all.take(i as int).lemma_filter_push(all[i as int], pred);
            }
            if find_recipe(&self.recipes, &self.attempted[i]).is_none() {
                failed.push(self.attempted[i].clone());
                assert(ids(failed@) =~= before.push(all[i as int]));
            }
            i += 1;
        }
        assert(all.take(i as int) =~= all);
        failed
    }

    /// Takes in what the server answered and says what to do next. An answer that the
    /// state does not wait for, such as one for another root recipe, changes nothing.
    pub fn reduce(self, action: RecipeWindowActions) -> (after: (RecipeWindowState, Effect))
        ensures
            after.0@ == next_state(self@, action@),
            after.1@ == next_effect(self@, action@),
            self@.wf() ==> after.0@.wf(),
    {
        proof {
            if self@.wf() {
                lemma_next_state_wf(self@, action@);
            }
        }
        let mut state = self;
        match action {
            RecipeWindowActions::UpdateRecipe(root, recipe) => {
                if root == state.root && state.phase == Phase::AwaitingRoot {
                    let mut recipes: Vec<Recipe> = Vec::new();
                    recipes.push(recipe);
                    assert(recipes@ =~= seq![recipe]);
                    state.recipes = recipes;
                    let effect = state.settle();
                    (state, effect)
                } else {
                    (state, Effect::Nothing)
                }
            },
            RecipeWindowActions::RootFailed(root, message) => {
                if root == state.root && state.phase == Phase::AwaitingRoot {
                    let ghost before = ids(state.attempted@);
                    let ghost asked = ids(state.pending@);
                    state.attempted.append(&mut state.pending);
                    assert(ids(state.attempted@) =~= before + asked);
                    assert(ids(state.pending@) =~= Seq::<Id>::empty());
                    state.phase = Phase::RootNotFound;
                    (state, Effect::Report(message))
                } else {
                    (state, Effect::Nothing)
                }
            },
            RecipeWindowActions::UpdateDependencies(root, fetched) => {
                if root == state.root && state.phase == Phase::Resolving {
                    insert_fetched(&mut state.recipes, fetched);
                    let effect = state.settle();
                    (state, effect)
                } else {
                    (state, Effect::Nothing)
                }
            },
        }
    }
}

} // verus!
