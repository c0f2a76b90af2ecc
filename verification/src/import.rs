//! The seed importer: which statement follows which outcome, one transaction
//! for each recipe.

use crate::error::{ended, ErrorView, RecipeServerError};
use crate::recipe::{join_preparation, join_steps, Recipe, RecipeView};
use crate::store::{
    nested_transaction, rows_for, ChildRow, ChildRowView, RecipeRow, RecipeRowView, Statement,
    StatementView, Store, StoreView, Tables,
};
use vstd::prelude::*;

verus! {

/// The statement whose outcome the importer waits for.
#[derive(Debug, PartialEq, Eq)]
pub enum Phase {
    Begin,
    Primary,
    Ingredient(usize),
    Tag(usize),
    Commit,
    Rollback,
}

/// The importer between two statements: the recipes of the seed, the recipe
/// whose transaction is open, and the statement that was sent last.
#[derive(Debug, PartialEq, Eq)]
pub struct Importer {
    pub recipes: Vec<Recipe>,
    pub index: usize,
    pub phase: Phase,
}

/// The importer as plain values.
pub struct ImporterView {
    pub recipes: Seq<RecipeView>,
    pub index: nat,
    pub phase: Phase,
}

impl View for Importer {
    type V = ImporterView;

    open spec fn view(&self) -> ImporterView {
        ImporterView {
            recipes: self.recipes.deep_view(),
            index: self.index as nat,
            phase: self.phase,
        }
    }
}

/// What the importer asks for next.
#[derive(Debug, PartialEq, Eq)]
pub enum ImportStep {
    /// Carry out the statement and hand its outcome to the importer.
    Run(Importer, Statement),
    /// The import has ended: every recipe was tried, or the store failed
    /// where no recipe can be skipped.
    Done(Result<(), RecipeServerError>),
}

/// A step of the importer as plain values.
pub enum ImportStepView {
    Run(ImporterView, StatementView),
    Done(Result<(), ErrorView>),
}

/// An outcome with its reason as plain values.
pub open spec fn outcome_view(outcome: Result<(), String>) -> Result<(), Seq<char>> {
    match outcome {
        Ok(_) => Ok(()),
        Err(reason) => Err(reason@),
    }
}

impl View for ImportStep {
    type V = ImportStepView;

    open spec fn view(&self) -> ImportStepView {
        match self {
            ImportStep::Run(importer, statement) => ImportStepView::Run(importer@, statement@),
            ImportStep::Done(result) => ImportStepView::Done(ended(*result)),
        }
    }
}

/// The row of `recipes` that stands for `recipe`: its preparation steps
/// joined into one text.
pub open spec fn primary_row(recipe: RecipeView) -> RecipeRowView {
    RecipeRowView {
        id: recipe.id as i64,
        name: recipe.name,
        preparation: join_steps(recipe.preparation),
        source: recipe.source,
    }
}

/// The row of `ingredients` for the ingredient at `k`.
pub open spec fn ingredient_row(recipe: RecipeView, k: int) -> ChildRowView {
    ChildRowView { recipe_id: recipe.id as i64, value: recipe.ingredients[k] }
}

/// The row of `tags` for the tag at `k`.
pub open spec fn tag_row(recipe: RecipeView, k: int) -> ChildRowView {
    ChildRowView { recipe_id: recipe.id as i64, value: recipe.tags[k] }
}

impl ImporterView {
    /// The importer in another phase.
    pub open spec fn at(self, phase: Phase) -> ImporterView {
        ImporterView { phase, ..self }
    }

    /// The recipe whose transaction is open.
    pub open spec fn current(self) -> RecipeView {
        self.recipes[self.index as int]
    }

    /// The insert of the tag at `k`, or the commit when the tags are used up.
    pub open spec fn tag_or_commit(self, k: int) -> ImportStepView {
        if 0 <= k < self.current().tags.len() {
            ImportStepView::Run(
                self.at(Phase::Tag(k as usize)),
                StatementView::InsertTag(tag_row(self.current(), k)),
            )
        } else {
            ImportStepView::Run(self.at(Phase::Commit), StatementView::Commit)
        }
    }

    /// The insert of the ingredient at `k`, or what follows the ingredients
    /// when they are used up.
    pub open spec fn ingredient_or_later(self, k: int) -> ImportStepView {
        if 0 <= k < self.current().ingredients.len() {
            ImportStepView::Run(
                self.at(Phase::Ingredient(k as usize)),
                StatementView::InsertIngredient(ingredient_row(self.current(), k)),
            )
        } else {
            self.tag_or_commit(0)
        }
    }

    /// The transaction of the recipe at `index` begins, or the import ends
    /// when the recipes are used up.
    pub open spec fn begin_at(recipes: Seq<RecipeView>, index: nat) -> ImportStepView {
        if index < recipes.len() {
            ImportStepView::Run(
                ImporterView { recipes, index, phase: Phase::Begin },
                StatementView::Begin,
            )
        } else {
            ImportStepView::Done(Ok(()))
        }
    }

    /// What follows `outcome`. Inside a transaction the inserts go on in
    /// order while they succeed, and the first that fails is followed by a
    /// rollback; a finished transaction is followed by the next recipe. A
    /// transaction that cannot be begun or finished ends the import.
    pub open spec fn resume(self, outcome: Result<(), Seq<char>>) -> ImportStepView {
        if self.index >= self.recipes.len() {
            ImportStepView::Done(Ok(()))
        } else {
            match (self.phase, outcome) {
                (Phase::Begin, Ok(_)) => ImportStepView::Run(
                    self.at(Phase::Primary),
                    StatementView::InsertRecipe(primary_row(self.current())),
                ),
                (Phase::Primary, Ok(_)) => self.ingredient_or_later(0),
                (Phase::Ingredient(k), Ok(_)) => self.ingredient_or_later(k + 1),
                (Phase::Tag(k), Ok(_)) => self.tag_or_commit(k + 1),
                (Phase::Primary, Err(_)) | (Phase::Ingredient(_), Err(_)) | (
                    Phase::Tag(_),
                    Err(_),
                ) => ImportStepView::Run(self.at(Phase::Rollback), StatementView::Rollback),
                (Phase::Commit, Ok(_)) | (Phase::Rollback, Ok(_)) => Self::begin_at(
                    self.recipes,
                    self.index + 1,
                ),
                (Phase::Begin, Err(reason)) | (Phase::Commit, Err(reason)) | (
                    Phase::Rollback,
                    Err(reason),
                ) => ImportStepView::Done(Err(ErrorView::StorageError(reason))),
            }
        }
    }
}

impl Importer {
    /// Starts the import of `recipes`: the first transaction begins, or
    /// there is nothing to do.
    pub fn start(recipes: Vec<Recipe>) -> (step: ImportStep)
        ensures
            step@ == ImporterView::begin_at(recipes.deep_view(), 0),
    {
        Self::begin_at(recipes, 0)
    }

    fn begin_at(recipes: Vec<Recipe>, index: usize) -> (step: ImportStep)
        ensures
            step@ == ImporterView::begin_at(recipes.deep_view(), index as nat),
    {
        if index < recipes.len() {
            ImportStep::Run(Importer { recipes, index, phase: Phase::Begin }, Statement::Begin)
        } else {
            ImportStep::Done(Ok(()))
        }
    }

    fn tag_or_commit(self, k: usize) -> (step: ImportStep)
        requires
            self.index < self.recipes.len(),
        ensures
            step@ == self@.tag_or_commit(k as int),
    {
        let recipe = &self.recipes[self.index];
        if k < recipe.tags.len() {
            let row = ChildRow { recipe_id: recipe.id as i64, value: recipe.tags[k].clone() };
            ImportStep::Run(
                Importer { recipes: self.recipes, index: self.index, phase: Phase::Tag(k) },
                Statement::InsertTag(row),
            )
        } else {
            ImportStep::Run(
                Importer { recipes: self.recipes, index: self.index, phase: Phase::Commit },
                Statement::Commit,
            )
        }
    }

    fn ingredient_or_later(self, k: usize) -> (step: ImportStep)
        requires
            self.index < self.recipes.len(),
        ensures
            step@ == self@.ingredient_or_later(k as int),
    {
        let recipe = &self.recipes[self.index];
        if k < recipe.ingredients.len() {
            let row = ChildRow {
                recipe_id: recipe.id as i64,
                value: recipe.ingredients[k].clone(),
            };
            ImportStep::Run(
                Importer { recipes: self.recipes, index: self.index, phase: Phase::Ingredient(k) },
                Statement::InsertIngredient(row),
            )
        } else {
            self.tag_or_commit(0)
        }
    }

    /// Takes the outcome of the statement that was sent last and says what
    /// follows.
    pub fn resume(self, outcome: Result<(), String>) -> (step: ImportStep)
        ensures
            step@ == self@.resume(outcome_view(outcome)),
    {
        if self.index >= self.recipes.len() {
            return ImportStep::Done(Ok(()));
        }
        match outcome {
            Ok(_) => match self.phase {
                Phase::Begin => {
                    let recipe = &self.recipes[self.index];
                    let row = RecipeRow {
                        id: recipe.id as i64,
                        name: recipe.name.clone(),
                        preparation: join_preparation(&recipe.preparation),
                        source: recipe.source.clone(),
                    };
                    ImportStep::Run(
                        Importer {
                            recipes: self.recipes,
                            index: self.index,
                            phase: Phase::Primary,
                        },
                        Statement::InsertRecipe(row),
                    )
                },
                Phase::Primary => self.ingredient_or_later(0),
                Phase::Ingredient(k) => {
                    if k < self.recipes[self.index].ingredients.len() {
                        self.ingredient_or_later(k + 1)
                    } else {
                        self.tag_or_commit(0)
                    }
                },
                Phase::Tag(k) => {
                    if k < self.recipes[self.index].tags.len() {
                        self.tag_or_commit(k + 1)
                    } else {
                        ImportStep::Run(
                            Importer {
                                recipes: self.recipes,
                                index: self.index,
                                phase: Phase::Commit,
                            },
                            Statement::Commit,
                        )
                    }
                },
                Phase::Commit | Phase::Rollback => {
                    let next = self.index + 1;
                    Self::begin_at(self.recipes, next)
                },
            },
            Err(reason) => match self.phase {
                Phase::Primary | Phase::Ingredient(_) | Phase::Tag(_) => ImportStep::Run(
                    Importer { recipes: self.recipes, index: self.index, phase: Phase::Rollback },
                    Statement::Rollback,
                ),
                Phase::Begin | Phase::Commit | Phase::Rollback => ImportStep::Done(
                    Err(RecipeServerError::StorageError(reason)),
                ),
            },
        }
    }
}

/// The tables with the row of `recipe` and the rows of its first `a`
/// ingredients and first `b` tags added.
pub open spec fn with_part(rows: Tables, recipe: RecipeView, a: int, b: int) -> Tables {
    Tables {
        recipes: rows.recipes.push(primary_row(recipe)),
        ingredients: rows.ingredients + rows_for(recipe.id as i64, recipe.ingredients.take(a)),
        tags: rows.tags + rows_for(recipe.id as i64, recipe.tags.take(b)),
    }
}

/// The tables with every row of `recipe` added: its own row, then one row
/// for each ingredient and one for each tag, in their order.
pub open spec fn with_recipe(rows: Tables, recipe: RecipeView) -> Tables {
    Tables {
        recipes: rows.recipes.push(primary_row(recipe)),
        ingredients: rows.ingredients + rows_for(recipe.id as i64, recipe.ingredients),
        tags: rows.tags + rows_for(recipe.id as i64, recipe.tags),
    }
}

/// Whether a store with these rows and this limit has room for every row of
/// `recipe`.
pub open spec fn fits(rows: Tables, limit: Option<nat>, recipe: RecipeView) -> bool {
    limit matches Some(most) ==> rows.size() + recipe.rows() <= most
}

/// Whether the import of `recipe` into these rows succeeds: its id is new
/// and all its rows fit.
pub open spec fn accepts(rows: Tables, limit: Option<nat>, recipe: RecipeView) -> bool {
    !rows.has_recipe(recipe.id as i64) && fits(rows, limit, recipe)
}

/// The rows after the import of one recipe: all of its rows are added, or
/// none is.
pub open spec fn import_one(rows: Tables, limit: Option<nat>, recipe: RecipeView) -> Tables {
    if accepts(rows, limit, recipe) {
        with_recipe(rows, recipe)
    } else {
        rows
    }
}

/// The rows after the import of `recipes`, one after the other.
pub open spec fn import_all(rows: Tables, limit: Option<nat>, recipes: Seq<RecipeView>) -> Tables
    decreases recipes.len(),
{
    if recipes.len() == 0 {
        rows
    } else {
        import_one(import_all(rows, limit, recipes.drop_last()), limit, recipes.last())
    }
}

/// Whether the ingredients and the tags of each recipe can be counted in
/// `usize`, as those of every recipe in memory can.
pub open spec fn countable(seed: Seq<RecipeView>) -> bool {
    forall|i: int|
        0 <= i < seed.len() ==> (#[trigger] seed[i]).ingredients.len() <= usize::MAX
            && seed[i].tags.len() <= usize::MAX
}

/// How far the inserts of one transaction are from its end.
pub open spec fn distance(recipe: RecipeView, phase: Phase) -> nat {
    match phase {
        Phase::Begin => recipe.ingredients.len() + recipe.tags.len() + 4,
        Phase::Primary => recipe.ingredients.len() + recipe.tags.len() + 3,
        Phase::Ingredient(k) => (recipe.ingredients.len() - k + recipe.tags.len() + 2) as nat,
        Phase::Tag(k) => (recipe.tags.len() - k + 1) as nat,
        Phase::Commit | Phase::Rollback => 0,
    }
}

/// What holds of the store while the importer waits for the outcome of
/// `statement`.
pub open spec fn on_track(
    start: StoreView,
    seed: Seq<RecipeView>,
    importer: ImporterView,
    statement: StatementView,
    db: StoreView,
) -> bool {
    let recipe = seed[importer.index as int];
    let base = import_all(start.rows, start.limit, seed.take(importer.index as int));
    let id = recipe.id as i64;
    let inside = db.marks == Some(base.marks());
    &&& importer.recipes == seed
    &&& importer.index < seed.len()
    &&& db.limit == start.limit
    &&& importer.index == 0 && importer.phase is Begin || !start.in_transaction()
    &&& match importer.phase {
        Phase::Begin => {
            &&& statement == StatementView::Begin
            &&& db.rows == base
            &&& importer.index == 0 ==> db.marks == start.marks
            &&& importer.index > 0 ==> db.marks is None
        },
        Phase::Primary => {
            &&& statement == StatementView::InsertRecipe(primary_row(recipe))
            &&& inside
            &&& db.rows == base
        },
        Phase::Ingredient(k) => {
            &&& k < recipe.ingredients.len()
            &&& statement == StatementView::InsertIngredient(ingredient_row(recipe, k as int))
            &&& inside
            &&& db.rows == with_part(base, recipe, k as int, 0)
            &&& !base.has_recipe(id)
        },
        Phase::Tag(k) => {
            &&& k < recipe.tags.len()
            &&& statement == StatementView::InsertTag(tag_row(recipe, k as int))
            &&& inside
            &&& db.rows == with_part(base, recipe, recipe.ingredients.len() as int, k as int)
            &&& !base.has_recipe(id)
        },
        Phase::Commit => {
            &&& statement == StatementView::Commit
            &&& inside
            &&& db.rows == with_recipe(base, recipe)
            &&& accepts(base, start.limit, recipe)
        },
        Phase::Rollback => {
            &&& statement == StatementView::Rollback
            &&& inside
            &&& db.rows.reaches(base.marks())
            &&& db.rows.cut(base.marks()) == base
            &&& !accepts(base, start.limit, recipe)
        },
    }
}

/// What an import leaves: inside an open transaction it is refused and the
/// store stays as it was; otherwise it succeeds and the rows are those of
/// `import_all`.
pub open spec fn import_ends(
    start: StoreView,
    seed: Seq<RecipeView>,
    result: Result<(), ErrorView>,
    db: StoreView,
) -> bool {
    if start.in_transaction() && seed.len() > 0 {
        &&& db == start
        &&& result == Err::<(), ErrorView>(ErrorView::StorageError(nested_transaction()))
    } else {
        &&& result is Ok
        &&& db == StoreView { rows: import_all(start.rows, start.limit, seed), ..start }
    }
}

/// Imports `recipes` into `db`, one transaction for each recipe: a recipe
/// whose id the store already holds, or whose rows do not all fit, leaves no
/// row behind, and the import goes on with the next. Inside an open
/// transaction nothing is imported.
#[verifier::loop_isolation(false)]
pub fn import_recipes(db: &mut Store, recipes: Vec<Recipe>) -> (result: Result<
    (),
    RecipeServerError,
>)
    requires
        old(db)@.well_formed(),
    ensures
        final(db)@.well_formed(),
        import_ends(old(db)@, recipes.deep_view(), ended(result), final(db)@),
{
    let ghost start = db@;
    let ghost seed = recipes.deep_view();
    proof {
        assert(seed.take(0) =~= Seq::<RecipeView>::empty());
        assert forall|i: int| 0 <= i < seed.len() implies (#[trigger] seed[i]).ingredients.len()
            <= usize::MAX && seed[i].tags.len() <= usize::MAX by {
            assert(seed[i].ingredients.len() == recipes[i].ingredients.len());
            assert(seed[i].tags.len() == recipes[i].tags.len());
        }
    }
    let mut step = Importer::start(recipes);
    loop
        invariant
            db@.well_formed(),
            start.well_formed(),
            countable(seed),
            match step@ {
                ImportStepView::Run(importer, statement) => on_track(
                    start,
                    seed,
                    importer,
                    statement,
                    db@,
                ),
                ImportStepView::Done(result) => import_ends(start, seed, result, db@),
            },
        decreases
            match step@ {
                ImportStepView::Run(importer, _) => seed.len() - importer.index,
                ImportStepView::Done(_) => 0,
            },
            match step@ {
                ImportStepView::Run(importer, _) => distance(
                    seed[importer.index as int],
                    importer.phase,
                ),
                ImportStepView::Done(_) => 0,
            },
    {
        match step {
            ImportStep::Done(result) => {
                return result;
            },
            ImportStep::Run(importer, statement) => {
                let ghost before = db@;
                let ghost waiting = importer@;
                let ghost sent = statement@;
                let outcome = db.execute(statement);
                step = importer.resume(outcome);
                proof {
                    lemma_statement_keeps_track(start, seed, waiting, sent, before, outcome_view(outcome));
                }
            },
        }
    }
}

/// Whether the step that follows `outcome` is on the track again, and
/// nearer to the end of the import.
pub open spec fn advances(
    start: StoreView,
    seed: Seq<RecipeView>,
    importer: ImporterView,
    statement: StatementView,
    before: StoreView,
    outcome: Result<(), Seq<char>>,
) -> bool {
    match importer.resume(outcome) {
        ImportStepView::Run(next, then) => {
            &&& on_track(start, seed, next, then, before.after(statement))
            &&& (next.index > importer.index || (next.index == importer.index && distance(
                seed[next.index as int],
                next.phase,
            ) < distance(seed[importer.index as int], importer.phase)))
        },
        ImportStepView::Done(result) => import_ends(start, seed, result, before.after(statement)),
    }
}

/// One statement and its outcome keep the import on its track.
pub proof fn lemma_statement_keeps_track(
    start: StoreView,
    seed: Seq<RecipeView>,
    importer: ImporterView,
    statement: StatementView,
    before: StoreView,
    outcome: Result<(), Seq<char>>,
)
    requires
        start.well_formed(),
        before.well_formed(),
        countable(seed),
        on_track(start, seed, importer, statement, before),
        match outcome {
            Ok(_) => before.refusal(statement) is None,
            Err(reason) => before.refusal(statement) == Some(reason),
        },
    ensures
        advances(start, seed, importer, statement, before, outcome),
{
    let index = importer.index as int;
    let recipe = seed[index];
    let id = recipe.id as i64;
    let limit = start.limit;
    let base = import_all(start.rows, limit, seed.take(index));
    let after = before.after(statement);
    let n = recipe.ingredients.len() as int;
    let t = recipe.tags.len() as int;
    assert(seed.take(index + 1).drop_last() =~= seed.take(index));
    assert(seed.take(index + 1).last() == recipe);
    assert(import_all(start.rows, limit, seed.take(index + 1)) == import_one(base, limit, recipe));
    assert(seed.take(seed.len() as int) =~= seed);
    assert(base.cut(base.marks()) =~= base) by {
        assert(base.recipes.take(base.recipes.len() as int) =~= base.recipes);
        assert(base.ingredients.take(base.ingredients.len() as int) =~= base.ingredients);
        assert(base.tags.take(base.tags.len() as int) =~= base.tags);
    }
    assert(with_part(base, recipe, n, t) =~= with_recipe(base, recipe)) by {
        assert(recipe.ingredients.take(n) =~= recipe.ingredients);
        assert(recipe.tags.take(t) =~= recipe.tags);
    }
    assert(with_part(base, recipe, 0, 0).ingredients =~= base.ingredients);
    assert(with_part(base, recipe, 0, 0).tags =~= base.tags);
    assert(with_part(base, recipe, n, 0).tags =~= base.tags);
    assert forall|a: int, b: int| 0 <= a <= n && 0 <= b <= t implies (#[trigger] with_part(
        base,
        recipe,
        a,
        b,
    )).cut(base.marks()) == base by {
        let here = with_part(base, recipe, a, b);
        assert(here.recipes.take(base.recipes.len() as int) =~= base.recipes);
        assert(here.ingredients.take(base.ingredients.len() as int) =~= base.ingredients);
        assert(here.tags.take(base.tags.len() as int) =~= base.tags);
    }
    match importer.phase {
        Phase::Begin => {
            if index == 0 {
                assert(seed.take(0) =~= Seq::<RecipeView>::empty());
            }
        },
        Phase::Primary => {
            if outcome is Ok {
                assert(after.rows == with_part(base, recipe, 0, 0));
            }
        },
        Phase::Ingredient(k) => {
            let here = with_part(base, recipe, k as int, 0);
            assert(here.size() == base.size() + 1 + k);
            if outcome is Ok {
                let there = with_part(base, recipe, k + 1, 0);
                assert(recipe.ingredients.take(k + 1) =~= recipe.ingredients.take(k as int).push(
                    recipe.ingredients[k as int],
                ));
                assert(after.rows.ingredients =~= there.ingredients);
                assert(after.rows.tags =~= there.tags);
                assert(after.rows == there);
            }
        },
        Phase::Tag(k) => {
            let here = with_part(base, recipe, n, k as int);
            assert(here.size() == base.size() + 1 + n + k);
            if outcome is Ok {
                let there = with_part(base, recipe, n, k + 1);
                assert(recipe.tags.take(k + 1) =~= recipe.tags.take(k as int).push(
                    recipe.tags[k as int],
                ));
                assert(after.rows.ingredients =~= there.ingredients);
                assert(after.rows.tags =~= there.tags);
                assert(after.rows == there);
            }
        },
        Phase::Commit | Phase::Rollback => {},
    }
}

} // verus!
