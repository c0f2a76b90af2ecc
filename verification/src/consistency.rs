//! What the import and the queries guarantee of each other.

use crate::database::recipe_in;
use crate::error::ErrorView;
use crate::import::{
    accepts, fits, import_all, import_one, primary_row, with_recipe, ImportStepView, ImporterView,
    Phase,
};
use crate::recipe::{lemma_preparation_round_trip, RecipeView};
use crate::store::{
    find_row, rows_for, values_of, ChildRowView, RecipeRowView, StatementView, StoreView, Tables,
};
use vstd::prelude::*;

verus! {

/// The values of a recipe in two lists of rows, one after the other, are
/// its values in the first followed by its values in the second.
pub proof fn lemma_values_of_add(a: Seq<ChildRowView>, b: Seq<ChildRowView>, id: i64)
    ensures
        values_of(a + b, id) == values_of(a, id) + values_of(b, id),
    decreases b.len(),
{
    if b.len() == 0 {
        assert(a + b =~= a);
        assert(values_of(a, id) + values_of(b, id) =~= values_of(a, id));
    } else {
        assert((a + b).drop_last() =~= a + b.drop_last());
        assert((a + b).last() == b.last());
        lemma_values_of_add(a, b.drop_last(), id);
        assert(values_of(a + b, id) =~= values_of(a, id) + values_of(b, id));
    }
}

/// The rows made for one recipe hold its values, and none of another recipe.
pub proof fn lemma_values_of_rows_for(owner: i64, values: Seq<Seq<char>>, id: i64)
    ensures
        values_of(rows_for(owner, values), id) == if owner == id {
            values
        } else {
            Seq::<Seq<char>>::empty()
        },
    decreases values.len(),
{
    let rows = rows_for(owner, values);
    if values.len() > 0 {
        assert(rows.drop_last() =~= rows_for(owner, values.drop_last()));
        lemma_values_of_rows_for(owner, values.drop_last(), id);
        if owner == id {
            assert(values.drop_last().push(values.last()) =~= values);
        }
    } else {
        assert(values =~= Seq::<Seq<char>>::empty());
    }
}

/// Rows of which none belongs to a recipe hold no value of it.
pub proof fn lemma_values_of_stranger(rows: Seq<ChildRowView>, id: i64)
    requires
        forall|i: int| 0 <= i < rows.len() ==> (#[trigger] rows[i]).recipe_id != id,
    ensures
        values_of(rows, id) == Seq::<Seq<char>>::empty(),
    decreases rows.len(),
{
    if rows.len() > 0 {
        assert(rows.last() == rows[rows.len() - 1]);
        assert forall|i: int| 0 <= i < rows.drop_last().len() implies (
        #[trigger] rows.drop_last()[i]).recipe_id != id by {
            assert(rows.drop_last()[i] == rows[i]);
        }
        lemma_values_of_stranger(rows.drop_last(), id);
    }
}

/// The row that is found has the id that was looked for and is one of the
/// rows; no row is found only where no row has the id.
pub proof fn lemma_find_row(rows: Seq<RecipeRowView>, id: i64)
    ensures
        match find_row(rows, id) {
            Some(row) => row.id == id && rows.contains(row),
            None => forall|i: int| 0 <= i < rows.len() ==> (#[trigger] rows[i]).id != id,
        },
    decreases rows.len(),
{
    if rows.len() > 0 {
        lemma_find_row(rows.drop_last(), id);
        match find_row(rows.drop_last(), id) {
            Some(row) => {
                let i = choose|i: int|
                    0 <= i < rows.drop_last().len() && rows.drop_last()[i] == row;
                assert(rows[i] == row);
            },
            None => {
                if rows.last().id == id {
                    assert(rows[rows.len() - 1] == rows.last());
                } else {
                    assert forall|i: int| 0 <= i < rows.len() implies (#[trigger] rows[i]).id
                        != id by {
                        if i < rows.len() - 1 {
                            assert(rows.drop_last()[i] == rows[i]);
                        }
                    }
                }
            },
        }
    }
}

/// One more row changes what is found only where nothing was found before.
pub proof fn lemma_find_row_push(rows: Seq<RecipeRowView>, row: RecipeRowView, id: i64)
    ensures
        find_row(rows.push(row), id) == match find_row(rows, id) {
            Some(found) => Some(found),
            None => if row.id == id {
                Some(row)
            } else {
                None
            },
        },
{
    assert(rows.push(row).drop_last() =~= rows);
    assert(rows.push(row).last() == row);
}

/// A recipe of which the rows hold nothing: no row of its own, no
/// ingredient, no tag.
pub open spec fn unknown(rows: Tables, id: i64) -> bool {
    &&& recipe_in(rows, id) == Err::<RecipeView, ErrorView>(ErrorView::NotFound(id))
    &&& values_of(rows.ingredients, id) == Seq::<Seq<char>>::empty()
    &&& values_of(rows.tags, id) == Seq::<Seq<char>>::empty()
}

/// In rows without orphans, a recipe that has no row of its own has no row
/// at all.
pub proof fn lemma_absent_is_unknown(rows: Tables, id: i64)
    requires
        rows.no_orphans(),
        !rows.has_recipe(id),
    ensures
        unknown(rows, id),
{
    lemma_find_row(rows.recipes, id);
    if let Some(row) = find_row(rows.recipes, id) {
        let i = choose|i: int| 0 <= i < rows.recipes.len() && rows.recipes[i] == row;
        assert(rows.recipes[i].id == id);
    }
    assert forall|i: int| 0 <= i < rows.ingredients.len() implies (
    #[trigger] rows.ingredients[i]).recipe_id != id by {
        assert(rows.has_recipe(rows.ingredients[i].recipe_id));
    }
    assert forall|i: int| 0 <= i < rows.tags.len() implies (#[trigger] rows.tags[i]).recipe_id
        != id by {
        assert(rows.has_recipe(rows.tags[i].recipe_id));
    }
    lemma_values_of_stranger(rows.ingredients, id);
    lemma_values_of_stranger(rows.tags, id);
}

/// The import of one recipe takes no row away: a recipe that had a row
/// keeps it, the number of rows does not fall, and rows without orphans
/// stay so.
pub proof fn lemma_import_one_grows(rows: Tables, limit: Option<nat>, recipe: RecipeView)
    ensures
        forall|id: i64| rows.has_recipe(id) ==> #[trigger] import_one(
            rows,
            limit,
            recipe,
        ).has_recipe(id),
        rows.size() <= import_one(rows, limit, recipe).size(),
        rows.no_orphans() ==> import_one(rows, limit, recipe).no_orphans(),
        rows.ids_unique() ==> import_one(rows, limit, recipe).ids_unique(),
        !accepts(import_one(rows, limit, recipe), limit, recipe),
{
    let after = import_one(rows, limit, recipe);
    let id = recipe.id as i64;
    if accepts(rows, limit, recipe) {
        let n = rows.recipes.len() as int;
        assert(after.recipes[n] == primary_row(recipe));
        assert(after.has_recipe(id));
        assert forall|other: i64| rows.has_recipe(other) implies #[trigger] after.has_recipe(
            other,
        ) by {
            let i = choose|i: int| 0 <= i < rows.recipes.len() && rows.recipes[i].id == other;
            assert(after.recipes[i].id == other);
        }
        if rows.no_orphans() {
            assert forall|i: int| 0 <= i < after.ingredients.len() implies after.has_recipe(
                (#[trigger] after.ingredients[i]).recipe_id,
            ) by {
                if i < rows.ingredients.len() {
                    assert(after.ingredients[i] == rows.ingredients[i]);
                    assert(rows.has_recipe(rows.ingredients[i].recipe_id));
                }
            }
            assert forall|i: int| 0 <= i < after.tags.len() implies after.has_recipe(
                (#[trigger] after.tags[i]).recipe_id,
            ) by {
                if i < rows.tags.len() {
                    assert(after.tags[i] == rows.tags[i]);
                    assert(rows.has_recipe(rows.tags[i].recipe_id));
                }
            }
        }
        if rows.ids_unique() {
            assert forall|i: int, j: int| 0 <= i < j < after.recipes.len() implies (
            #[trigger] after.recipes[i]).id != (#[trigger] after.recipes[j]).id by {
                if j < n {
                    assert(after.recipes[i] == rows.recipes[i]);
                    assert(after.recipes[j] == rows.recipes[j]);
                } else {
                    assert(after.recipes[i] == rows.recipes[i]);
                }
            }
        }
    }
}

/// The import of a recipe leaves every recipe that already had a row as it
/// was.
pub proof fn lemma_import_one_keeps(rows: Tables, limit: Option<nat>, recipe: RecipeView, id: i64)
    requires
        rows.has_recipe(id),
    ensures
        recipe_in(import_one(rows, limit, recipe), id) == recipe_in(rows, id),
{
    if accepts(rows, limit, recipe) {
        let own = recipe.id as i64;
        assert(own != id);
        lemma_find_row(rows.recipes, id);
        lemma_find_row_push(rows.recipes, primary_row(recipe), id);
        lemma_values_of_add(rows.ingredients, rows_for(own, recipe.ingredients), id);
        lemma_values_of_add(rows.tags, rows_for(own, recipe.tags), id);
        lemma_values_of_rows_for(own, recipe.ingredients, id);
        lemma_values_of_rows_for(own, recipe.tags, id);
        assert(values_of(rows.ingredients, id) + Seq::<Seq<char>>::empty() =~= values_of(
            rows.ingredients,
            id,
        ));
        assert(values_of(rows.tags, id) + Seq::<Seq<char>>::empty() =~= values_of(rows.tags, id));
    }
}

/// A recipe that is imported into rows that hold nothing of it is fetched
/// as it was given.
pub proof fn lemma_import_one_then_fetch(rows: Tables, limit: Option<nat>, recipe: RecipeView)
    requires
        rows.no_orphans(),
        accepts(rows, limit, recipe),
    ensures
        recipe_in(import_one(rows, limit, recipe), recipe.id as i64) == Ok::<RecipeView, ErrorView>(recipe),
{
    let id = recipe.id as i64;
    lemma_absent_is_unknown(rows, id);
    lemma_find_row(rows.recipes, id);
    lemma_find_row_push(rows.recipes, primary_row(recipe), id);
    lemma_values_of_add(rows.ingredients, rows_for(id, recipe.ingredients), id);
    lemma_values_of_add(rows.tags, rows_for(id, recipe.tags), id);
    lemma_values_of_rows_for(id, recipe.ingredients, id);
    lemma_values_of_rows_for(id, recipe.tags, id);
    lemma_preparation_round_trip(recipe.preparation);
    assert(Seq::<Seq<char>>::empty() + recipe.ingredients =~= recipe.ingredients);
    assert(Seq::<Seq<char>>::empty() + recipe.tags =~= recipe.tags);
    assert(id as u32 == recipe.id);
}

/// An import takes no row away.
pub proof fn lemma_import_all_grows(rows: Tables, limit: Option<nat>, recipes: Seq<RecipeView>)
    ensures
        forall|id: i64| rows.has_recipe(id) ==> #[trigger] import_all(
            rows,
            limit,
            recipes,
        ).has_recipe(id),
        rows.size() <= import_all(rows, limit, recipes).size(),
        rows.no_orphans() ==> import_all(rows, limit, recipes).no_orphans(),
        rows.ids_unique() ==> import_all(rows, limit, recipes).ids_unique(),
    decreases recipes.len(),
{
    if recipes.len() > 0 {
        lemma_import_all_grows(rows, limit, recipes.drop_last());
        lemma_import_one_grows(
            import_all(rows, limit, recipes.drop_last()),
            limit,
            recipes.last(),
        );
    }
}

/// Every recipe that an import took into the store is fetched from it equal
/// in every field, its ingredients and its steps in their order, where the
/// rows before the import hold no orphans.
pub proof fn lemma_imported_recipe_is_fetched(
    rows: Tables,
    limit: Option<nat>,
    recipes: Seq<RecipeView>,
    i: int,
)
    requires
        rows.no_orphans(),
        0 <= i < recipes.len(),
        accepts(import_all(rows, limit, recipes.take(i)), limit, recipes[i]),
    ensures
        recipe_in(import_all(rows, limit, recipes), recipes[i].id as i64) == Ok::<RecipeView, ErrorView>(recipes[i]),
{
    lemma_fetched_after(rows, limit, recipes, i, recipes.len() as int);
    assert(recipes.take(recipes.len() as int) =~= recipes);
}

proof fn lemma_fetched_after(
    rows: Tables,
    limit: Option<nat>,
    recipes: Seq<RecipeView>,
    i: int,
    k: int,
)
    requires
        rows.no_orphans(),
        0 <= i < k <= recipes.len(),
        accepts(import_all(rows, limit, recipes.take(i)), limit, recipes[i]),
    ensures
        recipe_in(import_all(rows, limit, recipes.take(k)), recipes[i].id as i64) == Ok::<RecipeView, ErrorView>(recipes[i]),
        import_all(rows, limit, recipes.take(k)).has_recipe(recipes[i].id as i64),
    decreases k,
{
    let id = recipes[i].id as i64;
    let before = import_all(rows, limit, recipes.take(k - 1));
    assert(recipes.take(k).drop_last() =~= recipes.take(k - 1));
    assert(recipes.take(k).last() == recipes[k - 1]);
    if k == i + 1 {
        lemma_import_all_grows(rows, limit, recipes.take(i));
        lemma_import_one_then_fetch(before, limit, recipes[i]);
        lemma_import_one_grows(before, limit, recipes[i]);
        let after = import_one(before, limit, recipes[i]);
        assert(after.recipes[before.recipes.len() as int] == primary_row(recipes[i]));
        assert(after.has_recipe(id));
    } else {
        lemma_fetched_after(rows, limit, recipes, i, k - 1);
        lemma_import_one_keeps(before, limit, recipes[k - 1], id);
        lemma_import_one_grows(before, limit, recipes[k - 1]);
    }
}

/// What an import refused once it refuses again, whatever was imported
/// since.
proof fn lemma_refused_stays(rows: Tables, limit: Option<nat>, later: Seq<RecipeView>, recipe: RecipeView)
    requires
        !accepts(rows, limit, recipe),
    ensures
        !accepts(import_all(rows, limit, later), limit, recipe),
    decreases later.len(),
{
    if later.len() > 0 {
        lemma_refused_stays(rows, limit, later.drop_last(), recipe);
        lemma_import_one_grows(import_all(rows, limit, later.drop_last()), limit, later.last());
    }
}

proof fn lemma_import_all_split(
    rows: Tables,
    limit: Option<nat>,
    recipes: Seq<RecipeView>,
    k: int,
)
    requires
        0 <= k <= recipes.len(),
    ensures
        import_all(rows, limit, recipes) == import_all(
            import_all(rows, limit, recipes.take(k)),
            limit,
            recipes.skip(k),
        ),
    decreases recipes.len() - k,
{
    if k == recipes.len() {
        assert(recipes.take(k) =~= recipes);
        assert(recipes.skip(k) =~= Seq::<RecipeView>::empty());
    } else {
        lemma_import_all_split(rows, limit, recipes, k + 1);
        // Moving one recipe from the head of the rest to the end of the
        // first part changes nothing.
        lemma_import_all_head(import_all(rows, limit, recipes.take(k)), limit, recipes.skip(k));
        assert(recipes.skip(k).drop_first() =~= recipes.skip(k + 1));
        assert(recipes.take(k + 1).drop_last() =~= recipes.take(k));
        assert(recipes.take(k + 1).last() == recipes[k]);
    }
}

proof fn lemma_import_all_head(rows: Tables, limit: Option<nat>, recipes: Seq<RecipeView>)
    requires
        recipes.len() > 0,
    ensures
        import_all(rows, limit, recipes) == import_all(
            import_one(rows, limit, recipes[0]),
            limit,
            recipes.drop_first(),
        ),
    decreases recipes.len(),
{
    if recipes.len() == 1 {
        assert(recipes.drop_last() =~= Seq::<RecipeView>::empty());
        assert(recipes.drop_first() =~= Seq::<RecipeView>::empty());
        assert(recipes.last() == recipes[0]);
        assert(import_all(rows, limit, recipes.drop_last()) == rows);
        assert(import_all(import_one(rows, limit, recipes[0]), limit, recipes.drop_first())
            == import_one(rows, limit, recipes[0]));
    } else {
        lemma_import_all_head(rows, limit, recipes.drop_last());
        assert(recipes.drop_last().drop_first() =~= recipes.drop_first().drop_last());
        assert(recipes.drop_first().last() == recipes.last());
        assert(recipes.drop_last()[0] == recipes[0]);
    }
}

/// After an import, the store refuses each recipe of the seed.
proof fn lemma_all_refused_after(
    rows: Tables,
    limit: Option<nat>,
    recipes: Seq<RecipeView>,
    i: int,
)
    requires
        0 <= i < recipes.len(),
    ensures
        !accepts(import_all(rows, limit, recipes), limit, recipes[i]),
{
    let upto = import_all(rows, limit, recipes.take(i + 1));
    assert(recipes.take(i + 1).drop_last() =~= recipes.take(i));
    assert(recipes.take(i + 1).last() == recipes[i]);
    lemma_import_one_grows(import_all(rows, limit, recipes.take(i)), limit, recipes[i]);
    lemma_refused_stays(upto, limit, recipes.skip(i + 1), recipes[i]);
    lemma_import_all_split(rows, limit, recipes, i + 1);
}

/// An import of recipes that the store refuses one and all changes nothing.
proof fn lemma_import_of_refused(rows: Tables, limit: Option<nat>, recipes: Seq<RecipeView>)
    requires
        forall|i: int| 0 <= i < recipes.len() ==> !accepts(rows, limit, #[trigger] recipes[i]),
    ensures
        import_all(rows, limit, recipes) == rows,
    decreases recipes.len(),
{
    if recipes.len() > 0 {
        assert forall|i: int| 0 <= i < recipes.drop_last().len() implies !accepts(
            rows,
            limit,
            #[trigger] recipes.drop_last()[i],
        ) by {
            assert(recipes.drop_last()[i] == recipes[i]);
        }
        lemma_import_of_refused(rows, limit, recipes.drop_last());
        assert(recipes.last() == recipes[recipes.len() - 1]);
    }
}

/// Importing the same seed a second time changes nothing: the store after
/// two imports is the store after one.
pub proof fn lemma_import_is_idempotent(
    rows: Tables,
    limit: Option<nat>,
    recipes: Seq<RecipeView>,
)
    ensures
        import_all(import_all(rows, limit, recipes), limit, recipes) == import_all(
            rows,
            limit,
            recipes,
        ),
{
    let once = import_all(rows, limit, recipes);
    assert forall|i: int| 0 <= i < recipes.len() implies !accepts(
        once,
        limit,
        #[trigger] recipes[i],
    ) by {
        lemma_all_refused_after(rows, limit, recipes, i);
    }
    lemma_import_of_refused(once, limit, recipes);
}

/// A recipe of which one insert fails leaves nothing behind. Where the rows
/// hold no orphans and nothing of the recipe, and the store has no room for
/// all its rows, the rows after its import are the rows before: a fetch of
/// the recipe gives `NotFound`, and no ingredient and no tag of it is there.
pub proof fn lemma_failed_import_leaves_nothing(
    rows: Tables,
    limit: Option<nat>,
    recipe: RecipeView,
)
    requires
        rows.no_orphans(),
        !rows.has_recipe(recipe.id as i64),
        !fits(rows, limit, recipe),
    ensures
        import_one(rows, limit, recipe) == rows,
        unknown(import_one(rows, limit, recipe), recipe.id as i64),
{
    lemma_absent_is_unknown(rows, recipe.id as i64);
}

/// The import of one recipe adds all of its rows or none.
pub proof fn lemma_import_is_atomic(rows: Tables, limit: Option<nat>, recipe: RecipeView)
    ensures
        import_one(rows, limit, recipe) == rows || import_one(rows, limit, recipe) == with_recipe(
            rows,
            recipe,
        ),
{
}

/// Whether `statement` inserts a row.
pub open spec fn is_insert(statement: StatementView) -> bool {
    statement is InsertRecipe || statement is InsertIngredient || statement is InsertTag
}

/// The store after `statements`, one after the other.
pub open spec fn after_all(store: StoreView, statements: Seq<StatementView>) -> StoreView
    decreases statements.len(),
{
    if statements.len() == 0 {
        store
    } else {
        after_all(store, statements.drop_last()).after(statements.last())
    }
}

/// Inserts inside a transaction leave the committed rows as they are.
pub proof fn lemma_inserts_keep_committed(store: StoreView, inserts: Seq<StatementView>)
    requires
        store.well_formed(),
        store.in_transaction(),
        forall|i: int| 0 <= i < inserts.len() ==> is_insert(#[trigger] inserts[i]),
    ensures
        after_all(store, inserts).well_formed(),
        after_all(store, inserts).marks == store.marks,
        after_all(store, inserts).limit == store.limit,
        after_all(store, inserts).committed() == store.committed(),
    decreases inserts.len(),
{
    if inserts.len() > 0 {
        assert forall|i: int| 0 <= i < inserts.drop_last().len() implies is_insert(
            #[trigger] inserts.drop_last()[i],
        ) by {
            assert(inserts.drop_last()[i] == inserts[i]);
        }
        lemma_inserts_keep_committed(store, inserts.drop_last());
        let before = after_all(store, inserts.drop_last());
        let last = inserts.last();
        assert(is_insert(inserts[inserts.len() - 1]));
        let marks = store.marks->0;
        let after = before.after(last);
        if before.refusal(last) is None {
            assert(after.rows.recipes.take(marks.recipes as int) =~= before.rows.recipes.take(
                marks.recipes as int,
            ));
            assert(after.rows.ingredients.take(marks.ingredients as int)
                =~= before.rows.ingredients.take(marks.ingredients as int));
            assert(after.rows.tags.take(marks.tags as int) =~= before.rows.tags.take(
                marks.tags as int,
            ));
            assert(after.rows.ids_unique()) by {
                if let StatementView::InsertRecipe(row) = last {
                    assert forall|i: int, j: int|
                        0 <= i < j < after.rows.recipes.len() implies (
                    #[trigger] after.rows.recipes[i]).id != (#[trigger] after.rows.recipes[j]).id by {
                        if j < before.rows.recipes.len() {
                            assert(after.rows.recipes[i] == before.rows.recipes[i]);
                            assert(after.rows.recipes[j] == before.rows.recipes[j]);
                        } else {
                            assert(after.rows.recipes[i] == before.rows.recipes[i]);
                            assert(before.rows.recipes[i].id != row.id);
                        }
                    }
                }
            }
        }
    }
}

/// A transaction that is rolled back leaves no trace: whatever inserts it
/// tried, and whichever of them the store carried out, the store after the
/// rollback is the store before the transaction began.
pub proof fn lemma_rollback_leaves_no_trace(store: StoreView, inserts: Seq<StatementView>)
    requires
        store.well_formed(),
        !store.in_transaction(),
        forall|i: int| 0 <= i < inserts.len() ==> is_insert(#[trigger] inserts[i]),
    ensures
        after_all(store.after(StatementView::Begin), inserts).after(StatementView::Rollback)
            == store,
{
    let begun = store.after(StatementView::Begin);
    assert(begun.committed() == store.rows) by {
        assert(store.rows.recipes.take(store.rows.recipes.len() as int) =~= store.rows.recipes);
        assert(store.rows.ingredients.take(store.rows.ingredients.len() as int)
            =~= store.rows.ingredients);
        assert(store.rows.tags.take(store.rows.tags.len() as int) =~= store.rows.tags);
    }
    lemma_inserts_keep_committed(begun, inserts);
}

/// After a transaction that was rolled back, a recipe of which the store
/// held nothing before is not found, and no ingredient and no tag of it is
/// there, whatever rows the transaction had inserted for it.
pub proof fn lemma_rolled_back_recipe_is_unknown(
    store: StoreView,
    inserts: Seq<StatementView>,
    id: i64,
)
    requires
        store.well_formed(),
        !store.in_transaction(),
        store.rows.no_orphans(),
        !store.rows.has_recipe(id),
        forall|i: int| 0 <= i < inserts.len() ==> is_insert(#[trigger] inserts[i]),
    ensures
        unknown(
            after_all(store.after(StatementView::Begin), inserts).after(
                StatementView::Rollback,
            ).committed(),
            id,
        ),
{
    lemma_rollback_leaves_no_trace(store, inserts);
    lemma_absent_is_unknown(store.rows, id);
}

/// An insert that fails is followed by a rollback, whichever insert of the
/// transaction it is and whatever the reason: the importer sends no further
/// insert and no commit for that recipe.
pub proof fn lemma_failed_insert_rolls_back(importer: ImporterView, reason: Seq<char>)
    requires
        importer.index < importer.recipes.len(),
        importer.phase is Primary || importer.phase is Ingredient || importer.phase is Tag,
    ensures
        importer.resume(Err(reason)) == ImportStepView::Run(
            importer.at(Phase::Rollback),
            StatementView::Rollback,
        ),
        importer.at(Phase::Rollback).resume(Ok(())) == ImporterView::begin_at(
            importer.recipes,
            importer.index + 1,
        ),
{
}

} // verus!
