use recipe_server::store::{Answer, ChildRow, Query, RecipeRow, Statement, Store};

fn row(id: i64, name: &str) -> RecipeRow {
    RecipeRow {
        id,
        name: name.to_string(),
        preparation: "mix|bake".to_string(),
        source: "book".to_string(),
    }
}

fn child(recipe_id: i64, value: &str) -> ChildRow {
    ChildRow { recipe_id, value: value.to_string() }
}

fn refused(reason: &str) -> Result<(), String> {
    Err(reason.to_string())
}

#[test]
fn a_new_store_is_empty() {
    let store = Store::new();
    assert!(!store.in_transaction());
    assert_eq!(store.answer(&Query::Recipe(1), 0), Answer::Row(None));
    assert_eq!(store.answer(&Query::Ingredients(1), 0), Answer::Lines(vec![]));
    assert_eq!(store.answer(&Query::Tags(1), 0), Answer::Lines(vec![]));
    assert_eq!(store.answer(&Query::RandomId, 5), Answer::Id(None));
    assert_eq!(store.answer(&Query::TagRows, 0), Answer::TagRows(vec![]));
}

#[test]
fn inserted_rows_are_answered_in_their_order() {
    let mut store = Store::new();
    assert_eq!(store.execute(Statement::InsertRecipe(row(1, "pie"))), Ok(()));
    assert_eq!(store.execute(Statement::InsertRecipe(row(2, "soup"))), Ok(()));
    assert_eq!(store.execute(Statement::InsertIngredient(child(1, "apples"))), Ok(()));
    assert_eq!(store.execute(Statement::InsertIngredient(child(2, "water"))), Ok(()));
    assert_eq!(store.execute(Statement::InsertIngredient(child(1, "flour"))), Ok(()));
    assert_eq!(store.execute(Statement::InsertTag(child(2, "soup"))), Ok(()));
    assert_eq!(store.execute(Statement::InsertTag(child(1, "dessert"))), Ok(()));
    assert_eq!(store.answer(&Query::Recipe(2), 0), Answer::Row(Some(row(2, "soup"))));
    assert_eq!(store.answer(&Query::Recipe(3), 0), Answer::Row(None));
    assert_eq!(
        store.answer(&Query::Ingredients(1), 0),
        Answer::Lines(vec!["apples".to_string(), "flour".to_string()])
    );
    assert_eq!(store.answer(&Query::Tags(2), 0), Answer::Lines(vec!["soup".to_string()]));
    assert_eq!(
        store.answer(&Query::TagRows, 0),
        Answer::TagRows(vec![child(2, "soup"), child(1, "dessert")])
    );
}

#[test]
fn a_second_recipe_of_the_same_id_is_refused() {
    let mut store = Store::new();
    assert_eq!(store.execute(Statement::InsertRecipe(row(1, "pie"))), Ok(()));
    assert_eq!(
        store.execute(Statement::InsertRecipe(row(1, "other"))),
        refused("UNIQUE constraint failed: recipes.id")
    );
    assert_eq!(store.answer(&Query::Recipe(1), 0), Answer::Row(Some(row(1, "pie"))));
    assert_eq!(store.answer(&Query::RandomId, 1), Answer::Id(Some(1)));
}

#[test]
fn a_random_id_is_picked_by_position() {
    let mut store = Store::new();
    for id in [10, 20, 30] {
        assert_eq!(store.execute(Statement::InsertRecipe(row(id, "x"))), Ok(()));
    }
    assert_eq!(store.answer(&Query::RandomId, 0), Answer::Id(Some(10)));
    assert_eq!(store.answer(&Query::RandomId, 1), Answer::Id(Some(20)));
    assert_eq!(store.answer(&Query::RandomId, 2), Answer::Id(Some(30)));
    assert_eq!(store.answer(&Query::RandomId, 3), Answer::Id(Some(10)));
    assert_eq!(store.answer(&Query::RandomId, u64::MAX), Answer::Id(Some(10)));
}

#[test]
fn rollback_takes_back_what_the_transaction_inserted() {
    let mut store = Store::new();
    assert_eq!(store.execute(Statement::InsertRecipe(row(1, "pie"))), Ok(()));
    assert_eq!(store.execute(Statement::Begin), Ok(()));
    assert!(store.in_transaction());
    assert_eq!(store.execute(Statement::InsertRecipe(row(2, "soup"))), Ok(()));
    assert_eq!(store.execute(Statement::InsertIngredient(child(2, "water"))), Ok(()));
    assert_eq!(store.execute(Statement::InsertTag(child(2, "soup"))), Ok(()));
    assert_eq!(store.execute(Statement::Rollback), Ok(()));
    assert!(!store.in_transaction());
    assert_eq!(store.answer(&Query::Recipe(2), 0), Answer::Row(None));
    assert_eq!(store.answer(&Query::Ingredients(2), 0), Answer::Lines(vec![]));
    assert_eq!(store.answer(&Query::TagRows, 0), Answer::TagRows(vec![]));
    assert_eq!(store.answer(&Query::Recipe(1), 0), Answer::Row(Some(row(1, "pie"))));
    assert_eq!(store.execute(Statement::InsertRecipe(row(2, "again"))), Ok(()));
}

#[test]
fn commit_keeps_what_the_transaction_inserted() {
    let mut store = Store::new();
    assert_eq!(store.execute(Statement::Begin), Ok(()));
    assert_eq!(store.execute(Statement::InsertRecipe(row(2, "soup"))), Ok(()));
    assert_eq!(store.execute(Statement::InsertTag(child(2, "soup"))), Ok(()));
    assert_eq!(store.execute(Statement::Commit), Ok(()));
    assert!(!store.in_transaction());
    assert_eq!(store.answer(&Query::Recipe(2), 0), Answer::Row(Some(row(2, "soup"))));
    assert_eq!(store.answer(&Query::Tags(2), 0), Answer::Lines(vec!["soup".to_string()]));
}

#[test]
fn questions_see_committed_rows_only() {
    let mut store = Store::new();
    assert_eq!(store.execute(Statement::InsertRecipe(row(1, "pie"))), Ok(()));
    assert_eq!(store.execute(Statement::Begin), Ok(()));
    assert_eq!(store.execute(Statement::InsertRecipe(row(2, "soup"))), Ok(()));
    assert_eq!(store.execute(Statement::InsertIngredient(child(1, "sugar"))), Ok(()));
    assert_eq!(store.execute(Statement::InsertTag(child(1, "sweet"))), Ok(()));
    assert_eq!(store.answer(&Query::Recipe(2), 0), Answer::Row(None));
    assert_eq!(store.answer(&Query::Ingredients(1), 0), Answer::Lines(vec![]));
    assert_eq!(store.answer(&Query::Tags(1), 0), Answer::Lines(vec![]));
    assert_eq!(store.answer(&Query::TagRows, 0), Answer::TagRows(vec![]));
    assert_eq!(store.answer(&Query::RandomId, 1), Answer::Id(Some(1)));
    assert_eq!(
        store.execute(Statement::InsertRecipe(row(2, "twice"))),
        refused("UNIQUE constraint failed: recipes.id")
    );
}

#[test]
fn transactions_do_not_nest() {
    let mut store = Store::new();
    assert_eq!(store.execute(Statement::Commit), refused("no transaction is active"));
    assert_eq!(store.execute(Statement::Rollback), refused("no transaction is active"));
    assert_eq!(store.execute(Statement::Begin), Ok(()));
    assert_eq!(
        store.execute(Statement::Begin),
        refused("cannot start a transaction within a transaction")
    );
    assert!(store.in_transaction());
}

#[test]
fn a_full_store_refuses_rows() {
    let mut store = Store::with_limit(2);
    assert_eq!(store.execute(Statement::InsertRecipe(row(1, "pie"))), Ok(()));
    assert_eq!(store.execute(Statement::InsertTag(child(1, "dessert"))), Ok(()));
    assert_eq!(
        store.execute(Statement::InsertIngredient(child(1, "apples"))),
        refused("database or disk is full")
    );
    assert_eq!(
        store.execute(Statement::InsertTag(child(1, "sweet"))),
        refused("database or disk is full")
    );
    assert_eq!(
        store.execute(Statement::InsertRecipe(row(2, "soup"))),
        refused("database or disk is full")
    );
    assert_eq!(
        store.execute(Statement::InsertRecipe(row(1, "pie"))),
        refused("UNIQUE constraint failed: recipes.id")
    );
    assert_eq!(store.answer(&Query::Ingredients(1), 0), Answer::Lines(vec![]));
}

#[test]
fn a_store_without_room_refuses_the_first_row() {
    let mut store = Store::with_limit(0);
    assert_eq!(
        store.execute(Statement::InsertRecipe(row(1, "pie"))),
        refused("database or disk is full")
    );
}

#[test]
fn rollback_makes_room_again() {
    let mut store = Store::with_limit(1);
    assert_eq!(store.execute(Statement::Begin), Ok(()));
    assert_eq!(store.execute(Statement::InsertRecipe(row(1, "pie"))), Ok(()));
    assert_eq!(store.execute(Statement::Rollback), Ok(()));
    assert_eq!(store.execute(Statement::InsertRecipe(row(2, "soup"))), Ok(()));
}
