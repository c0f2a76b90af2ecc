//! The three tables of the catalogue and the statements that change them,
//! kept in memory.

use vstd::prelude::*;

verus! {

/// A row of the table `recipes`.
#[derive(Debug, PartialEq, Eq)]
pub struct RecipeRow {
    pub id: i64,
    pub name: String,
    pub preparation: String,
    pub source: String,
}

/// A row of the table `recipes` as plain values.
pub struct RecipeRowView {
    pub id: i64,
    pub name: Seq<char>,
    pub preparation: Seq<char>,
    pub source: Seq<char>,
}

impl View for RecipeRow {
    type V = RecipeRowView;

    open spec fn view(&self) -> RecipeRowView {
        RecipeRowView {
            id: self.id,
            name: self.name@,
            preparation: self.preparation@,
            source: self.source@,
        }
    }
}

/// A row of the table `ingredients` or of the table `tags`.
#[derive(Debug, PartialEq, Eq)]
pub struct ChildRow {
    pub recipe_id: i64,
    pub value: String,
}

/// A row of the table `ingredients` or `tags` as plain values.
pub struct ChildRowView {
    pub recipe_id: i64,
    pub value: Seq<char>,
}

impl View for ChildRow {
    type V = ChildRowView;

    open spec fn view(&self) -> ChildRowView {
        ChildRowView { recipe_id: self.recipe_id, value: self.value@ }
    }
}

/// A statement that changes the store.
#[derive(Debug, PartialEq, Eq)]
pub enum Statement {
    Begin,
    InsertRecipe(RecipeRow),
    InsertIngredient(ChildRow),
    InsertTag(ChildRow),
    Commit,
    Rollback,
}

/// A statement as plain values.
pub enum StatementView {
    Begin,
    InsertRecipe(RecipeRowView),
    InsertIngredient(ChildRowView),
    InsertTag(ChildRowView),
    Commit,
    Rollback,
}

impl View for Statement {
    type V = StatementView;

    open spec fn view(&self) -> StatementView {
        match self {
            Statement::Begin => StatementView::Begin,
            Statement::InsertRecipe(row) => StatementView::InsertRecipe(row@),
            Statement::InsertIngredient(row) => StatementView::InsertIngredient(row@),
            Statement::InsertTag(row) => StatementView::InsertTag(row@),
            Statement::Commit => StatementView::Commit,
            Statement::Rollback => StatementView::Rollback,
        }
    }
}

/// A question that the store answers without changing.
#[derive(Debug, PartialEq, Eq)]
pub enum Query {
    /// The row of `recipes` with this id.
    Recipe(i64),
    /// The ingredients of the recipe with this id.
    Ingredients(i64),
    /// The tags of the recipe with this id.
    Tags(i64),
    /// The id of one recipe, picked at random among all.
    RandomId,
    /// Every row of `tags`.
    TagRows,
}

/// What the store answers to a question.
#[derive(Debug, PartialEq, Eq)]
pub enum Answer {
    Row(Option<RecipeRow>),
    Lines(Vec<String>),
    Id(Option<i64>),
    TagRows(Vec<ChildRow>),
    /// The store failed; the text says how.
    Failed(String),
}

/// An answer as plain values.
pub enum AnswerView {
    Row(Option<RecipeRowView>),
    Lines(Seq<Seq<char>>),
    Id(Option<i64>),
    TagRows(Seq<ChildRowView>),
    Failed(Seq<char>),
}

impl View for Answer {
    type V = AnswerView;

    open spec fn view(&self) -> AnswerView {
        match self {
            Answer::Row(Some(row)) => AnswerView::Row(Some(row@)),
            Answer::Row(None) => AnswerView::Row(None),
            Answer::Lines(lines) => AnswerView::Lines(lines.deep_view()),
            Answer::Id(id) => AnswerView::Id(*id),
            Answer::TagRows(rows) => AnswerView::TagRows(rows.deep_view()),
            Answer::Failed(reason) => AnswerView::Failed(reason@),
        }
    }
}

/// The lengths of the three tables at one moment.
pub struct Marks {
    pub recipes: nat,
    pub ingredients: nat,
    pub tags: nat,
}

/// The rows of the three tables, in the order in which they were inserted.
pub struct Tables {
    pub recipes: Seq<RecipeRowView>,
    pub ingredients: Seq<ChildRowView>,
    pub tags: Seq<ChildRowView>,
}

/// The first row of `rows` with the given id.
pub open spec fn find_row(rows: Seq<RecipeRowView>, id: i64) -> Option<RecipeRowView>
    decreases rows.len(),
{
    if rows.len() == 0 {
        None
    } else {
        match find_row(rows.drop_last(), id) {
            Some(row) => Some(row),
            None => if rows.last().id == id {
                Some(rows.last())
            } else {
                None
            },
        }
    }
}

/// The values of the rows of `rows` that belong to the recipe `id`, in the
/// order of the rows.
pub open spec fn values_of(rows: Seq<ChildRowView>, id: i64) -> Seq<Seq<char>>
    decreases rows.len(),
{
    if rows.len() == 0 {
        Seq::<Seq<char>>::empty()
    } else if rows.last().recipe_id == id {
        values_of(rows.drop_last(), id).push(rows.last().value)
    } else {
        values_of(rows.drop_last(), id)
    }
}

/// One row for each of `values`, all of the recipe `id`.
pub open spec fn rows_for(id: i64, values: Seq<Seq<char>>) -> Seq<ChildRowView> {
    Seq::new(values.len(), |i: int| ChildRowView { recipe_id: id, value: values[i] })
}

impl Tables {
    /// Three tables without rows.
    pub open spec fn empty() -> Tables {
        Tables { recipes: Seq::empty(), ingredients: Seq::empty(), tags: Seq::empty() }
    }

    /// The number of rows in the three tables together.
    pub open spec fn size(self) -> nat {
        self.recipes.len() + self.ingredients.len() + self.tags.len()
    }

    /// The lengths of the three tables.
    pub open spec fn marks(self) -> Marks {
        Marks {
            recipes: self.recipes.len(),
            ingredients: self.ingredients.len(),
            tags: self.tags.len(),
        }
    }

    /// Whether each table has as many rows as `marks` says, or more.
    pub open spec fn reaches(self, marks: Marks) -> bool {
        &&& marks.recipes <= self.recipes.len()
        &&& marks.ingredients <= self.ingredients.len()
        &&& marks.tags <= self.tags.len()
    }

    /// The tables cut back to the lengths that `marks` gives.
    pub open spec fn cut(self, marks: Marks) -> Tables {
        Tables {
            recipes: self.recipes.take(marks.recipes as int),
            ingredients: self.ingredients.take(marks.ingredients as int),
            tags: self.tags.take(marks.tags as int),
        }
    }

    /// Whether a recipe with this id has a row.
    pub open spec fn has_recipe(self, id: i64) -> bool {
        exists|i: int| 0 <= i < self.recipes.len() && (#[trigger] self.recipes[i]).id == id
    }

    /// Whether no two rows of `recipes` have the same id.
    pub open spec fn ids_unique(self) -> bool {
        forall|i: int, j: int|
            0 <= i < j < self.recipes.len() ==> (#[trigger] self.recipes[i]).id != (
            #[trigger] self.recipes[j]).id
    }

    /// Whether every row of `ingredients` and `tags` belongs to a recipe that
    /// has a row.
    pub open spec fn no_orphans(self) -> bool {
        &&& forall|i: int|
            0 <= i < self.ingredients.len() ==> self.has_recipe(
                (#[trigger] self.ingredients[i]).recipe_id,
            )
        &&& forall|i: int|
            0 <= i < self.tags.len() ==> self.has_recipe((#[trigger] self.tags[i]).recipe_id)
    }
}

/// The state of a store: its rows, the lengths of the tables when the open
/// transaction began, and the number of rows that it can hold.
pub struct StoreView {
    pub rows: Tables,
    pub marks: Option<Marks>,
    pub limit: Option<nat>,
}

/// The reason with which a transaction inside a transaction is refused.
pub open spec fn nested_transaction() -> Seq<char> {
    "cannot start a transaction within a transaction"@
}

/// The reason with which the end of a transaction is refused when none is open.
pub open spec fn no_transaction() -> Seq<char> {
    "no transaction is active"@
}

/// The reason with which a second recipe of the same id is refused.
pub open spec fn duplicate_id() -> Seq<char> {
    "UNIQUE constraint failed: recipes.id"@
}

/// The reason with which a row is refused when the store holds as many rows
/// as it can.
pub open spec fn store_full() -> Seq<char> {
    "database or disk is full"@
}

impl StoreView {
    /// Whether a transaction is open.
    pub open spec fn in_transaction(self) -> bool {
        self.marks is Some
    }

    /// The rows that are committed: all of them, or those that were there
    /// when the open transaction began.
    pub open spec fn committed(self) -> Tables {
        match self.marks {
            Some(marks) => self.rows.cut(marks),
            None => self.rows,
        }
    }

    /// Whether the store holds as many rows as it can.
    pub open spec fn full(self) -> bool {
        match self.limit {
            Some(limit) => self.rows.size() >= limit,
            None => false,
        }
    }

    /// What every store keeps: ids are unique, the marks of an open
    /// transaction lie within the tables, and the rows are within the limit.
    pub open spec fn well_formed(self) -> bool {
        &&& self.rows.ids_unique()
        &&& self.marks matches Some(marks) ==> self.rows.reaches(marks)
        &&& self.limit matches Some(limit) ==> self.rows.size() <= limit
    }

    /// What the store answers to `query`, from the rows that are committed.
    /// `pick` decides which recipe a random choice falls on.
    pub open spec fn answer(self, query: Query, pick: u64) -> AnswerView {
        let rows = self.committed();
        match query {
            Query::Recipe(id) => AnswerView::Row(find_row(rows.recipes, id)),
            Query::Ingredients(id) => AnswerView::Lines(values_of(rows.ingredients, id)),
            Query::Tags(id) => AnswerView::Lines(values_of(rows.tags, id)),
            Query::RandomId => if rows.recipes.len() == 0 {
                AnswerView::Id(None)
            } else {
                AnswerView::Id(Some(rows.recipes[pick as int % rows.recipes.len() as int].id))
            },
            Query::TagRows => AnswerView::TagRows(rows.tags),
        }
    }

    /// Why the store refuses `statement`; `None` where it carries it out.
    pub open spec fn refusal(self, statement: StatementView) -> Option<Seq<char>> {
        match statement {
            StatementView::Begin => if self.in_transaction() {
                Some(nested_transaction())
            } else {
                None
            },
            StatementView::Commit | StatementView::Rollback => if self.in_transaction() {
                None
            } else {
                Some(no_transaction())
            },
            StatementView::InsertRecipe(row) => if self.rows.has_recipe(row.id) {
                Some(duplicate_id())
            } else if self.full() {
                Some(store_full())
            } else {
                None
            },
            StatementView::InsertIngredient(_) | StatementView::InsertTag(_) => if self.full() {
                Some(store_full())
            } else {
                None
            },
        }
    }

    /// The store after `statement`: unchanged where the statement is refused.
    pub open spec fn after(self, statement: StatementView) -> StoreView {
        if self.refusal(statement) is Some {
            self
        } else {
            match statement {
                StatementView::Begin => StoreView { marks: Some(self.rows.marks()), ..self },
                StatementView::Commit => StoreView { marks: None, ..self },
                StatementView::Rollback => StoreView {
                    rows: self.committed(),
                    marks: None,
                    ..self
                },
                StatementView::InsertRecipe(row) => StoreView {
                    rows: Tables { recipes: self.rows.recipes.push(row), ..self.rows },
                    ..self
                },
                StatementView::InsertIngredient(row) => StoreView {
                    rows: Tables { ingredients: self.rows.ingredients.push(row), ..self.rows },
                    ..self
                },
                StatementView::InsertTag(row) => StoreView {
                    rows: Tables { tags: self.rows.tags.push(row), ..self.rows },
                    ..self
                },
            }
        }
    }
}

/// The catalogue's store in memory: three tables that only grow, a
/// transaction that can take back what was inserted since it began, and an
/// optional limit on the number of rows.
pub struct Store {
    recipes: Vec<RecipeRow>,
    ingredients: Vec<ChildRow>,
    tags: Vec<ChildRow>,
    marks: Option<(usize, usize, usize)>,
    limit: Option<usize>,
}

impl View for Store {
    type V = StoreView;

    closed spec fn view(&self) -> StoreView {
        StoreView {
            rows: Tables {
                recipes: self.recipes.deep_view(),
                ingredients: self.ingredients.deep_view(),
                tags: self.tags.deep_view(),
            },
            marks: match self.marks {
                Some((r, i, t)) => Some(
                    Marks { recipes: r as nat, ingredients: i as nat, tags: t as nat },
                ),
                None => None,
            },
            limit: match self.limit {
                Some(limit) => Some(limit as nat),
                None => None,
            },
        }
    }
}

impl DeepView for RecipeRow {
    type V = RecipeRowView;

    open spec fn deep_view(&self) -> RecipeRowView {
        self@
    }
}

impl DeepView for ChildRow {
    type V = ChildRowView;

    open spec fn deep_view(&self) -> ChildRowView {
        self@
    }
}

fn refused(reason: &str) -> (outcome: Result<(), String>)
    ensures
        outcome matches Err(text) && text@ == reason@,
{
    Err(reason.to_owned())
}

impl Store {
    /// A store without rows that takes any number of rows.
    pub fn new() -> (store: Store)
        ensures
            store@ == (StoreView { rows: Tables::empty(), marks: None, limit: None }),
            store@.well_formed(),
    {
        let store = Store {
            recipes: Vec::new(),
            ingredients: Vec::new(),
            tags: Vec::new(),
            marks: None,
            limit: None,
        };
        assert(store@.rows =~= Tables::empty()) by {
            assert(store.recipes.deep_view() =~= Seq::<RecipeRowView>::empty());
            assert(store.ingredients.deep_view() =~= Seq::<ChildRowView>::empty());
            assert(store.tags.deep_view() =~= Seq::<ChildRowView>::empty());
        }
        store
    }

    /// A store without rows that takes `limit` rows and refuses more.
    pub fn with_limit(limit: usize) -> (store: Store)
        ensures
            store@ == (StoreView {
                rows: Tables::empty(),
                marks: None,
                limit: Some(limit as nat),
            }),
            store@.well_formed(),
    {
        let store = Store {
            recipes: Vec::new(),
            ingredients: Vec::new(),
            tags: Vec::new(),
            marks: None,
            limit: Some(limit),
        };
        assert(store@.rows =~= Tables::empty()) by {
            assert(store.recipes.deep_view() =~= Seq::<RecipeRowView>::empty());
            assert(store.ingredients.deep_view() =~= Seq::<ChildRowView>::empty());
            assert(store.tags.deep_view() =~= Seq::<ChildRowView>::empty());
        }
        store
    }

    /// Tells whether a transaction is open.
    pub fn in_transaction(&self) -> (open: bool)
        ensures
            open == self@.in_transaction(),
    {
        self.marks.is_some()
    }

    fn is_full(&self) -> (full: bool)
        ensures
            full == self@.full(),
    {
        match self.limit {
            Some(limit) => {
                let size: u128 = self.recipes.len() as u128 + self.ingredients.len() as u128
                    + self.tags.len() as u128;
                size >= limit as u128
            },
            None => false,
        }
    }

    fn has_recipe(&self, id: i64) -> (found: bool)
        ensures
            found == self@.rows.has_recipe(id),
    {
        let mut i: usize = 0;
        while i < self.recipes.len()
            invariant
                i <= self.recipes.len(),
                forall|j: int| 0 <= j < i ==> (#[trigger] self@.rows.recipes[j]).id != id,
            decreases self.recipes.len() - i,
        {
            if self.recipes[i].id == id {
                assert(self@.rows.recipes[i as int].id == id);
                return true;
            }
            i += 1;
        }
        false
    }

    /// Carries out `statement`, or refuses it and leaves the store as it was.
    pub fn execute(&mut self, statement: Statement) -> (outcome: Result<(), String>)
        requires
            old(self)@.well_formed(),
        ensures
            final(self)@ == old(self)@.after(statement@),
            final(self)@.well_formed(),
            match outcome {
                Ok(_) => old(self)@.refusal(statement@) is None,
                Err(reason) => old(self)@.refusal(statement@) == Some(reason@),
            },
    {
        match statement {
            Statement::Begin => {
                if self.marks.is_some() {
                    return refused("cannot start a transaction within a transaction");
                }
                self.marks = Some((self.recipes.len(), self.ingredients.len(), self.tags.len()));
                Ok(())
            },
            Statement::Commit => {
                if self.marks.is_none() {
                    return refused("no transaction is active");
                }
                self.marks = None;
                Ok(())
            },
            Statement::Rollback => {
                match self.marks {
                    None => refused("no transaction is active"),
                    Some((r, i, t)) => {
                        self.marks = None;
                        self.recipes.truncate(r);
                        self.ingredients.truncate(i);
                        self.tags.truncate(t);
                        proof {
                            assert(self.recipes.deep_view() =~= old(self).recipes.deep_view().take(
                                r as int,
                            ));
                            assert(self.ingredients.deep_view() =~= old(
                                self,
                            ).ingredients.deep_view().take(i as int));
                            assert(self.tags.deep_view() =~= old(self).tags.deep_view().take(
                                t as int,
                            ));
                        }
                        Ok(())
                    },
                }
            },
            Statement::InsertRecipe(row) => {
                if self.has_recipe(row.id) {
                    return refused("UNIQUE constraint failed: recipes.id");
                }
                if self.is_full() {
                    return refused("database or disk is full");
                }
                self.recipes.push(row);
                proof {
                    assert(self.recipes.deep_view() =~= old(self).recipes.deep_view().push(row@));
                }
                Ok(())
            },
            Statement::InsertIngredient(row) => {
                if self.is_full() {
                    return refused("database or disk is full");
                }
                self.ingredients.push(row);
                proof {
                    assert(self.ingredients.deep_view() =~= old(self).ingredients.deep_view().push(
                        row@,
                    ));
                }
                Ok(())
            },
            Statement::InsertTag(row) => {
                if self.is_full() {
                    return refused("database or disk is full");
                }
                self.tags.push(row);
                proof {
                    assert(self.tags.deep_view() =~= old(self).tags.deep_view().push(row@));
                }
                Ok(())
            },
        }
    }

    fn committed_lengths(&self) -> (lengths: (usize, usize, usize))
        requires
            self@.well_formed(),
        ensures
            lengths.0 == self@.committed().recipes.len() <= self.recipes.len(),
            lengths.1 == self@.committed().ingredients.len() <= self.ingredients.len(),
            lengths.2 == self@.committed().tags.len() <= self.tags.len(),
            self@.committed().recipes == self.recipes.deep_view().take(lengths.0 as int),
            self@.committed().ingredients == self.ingredients.deep_view().take(lengths.1 as int),
            self@.committed().tags == self.tags.deep_view().take(lengths.2 as int),
    {
        match self.marks {
            Some(marks) => marks,
            None => {
                proof {
                    assert(self.recipes.deep_view().take(self.recipes.len() as int)
                        =~= self.recipes.deep_view());
                    assert(self.ingredients.deep_view().take(self.ingredients.len() as int)
                        =~= self.ingredients.deep_view());
                    assert(self.tags.deep_view().take(self.tags.len() as int)
                        =~= self.tags.deep_view());
                }
                (self.recipes.len(), self.ingredients.len(), self.tags.len())
            },
        }
    }

    fn recipe_row(&self, id: i64) -> (found: Option<RecipeRow>)
        requires
            self@.well_formed(),
        ensures
            (Answer::Row(found))@ == self@.answer(Query::Recipe(id), 0),
    {
        let (n, _, _) = self.committed_lengths();
        let ghost rows = self.recipes.deep_view();
        let mut i: usize = 0;
        assert(rows.take(0) =~= Seq::<RecipeRowView>::empty());
        while i < n
            invariant
                i <= n <= self.recipes.len(),
                rows == self.recipes.deep_view(),
                self@.committed().recipes == rows.take(n as int),
                find_row(rows.take(i as int), id) is None,
            decreases n - i,
        {
            proof {
                assert(rows.take(i as int + 1).drop_last() =~= rows.take(i as int));
                assert(rows.take(i as int + 1).last() == self.recipes[i as int]@);
            }
            if self.recipes[i].id == id {
                let row = &self.recipes[i];
                let found = RecipeRow {
                    id: row.id,
                    name: row.name.clone(),
                    preparation: row.preparation.clone(),
                    source: row.source.clone(),
                };
                proof {
                    assert(rows.take(n as int).take(i as int + 1) =~= rows.take(i as int + 1));
                    assert(find_row(rows.take(i as int + 1), id) == Some(found@));
                    lemma_find_row_stays(rows.take(n as int), i as int + 1, id);
                }
                return Some(found);
            }
            i += 1;
        }
        None
    }

    fn values(rows: &Vec<ChildRow>, n: usize, id: i64) -> (lines: Vec<String>)
        requires
            n <= rows.len(),
        ensures
            lines.deep_view() == values_of(rows.deep_view().take(n as int), id),
    {
        let mut lines: Vec<String> = Vec::new();
        let mut i: usize = 0;
        assert(rows.deep_view().take(0) =~= Seq::<ChildRowView>::empty());
        while i < n
            invariant
                i <= n <= rows.len(),
                lines.deep_view() == values_of(rows.deep_view().take(i as int), id),
            decreases n - i,
        {
            proof {
                assert(rows.deep_view().take(i as int + 1).drop_last() =~= rows.deep_view().take(
                    i as int,
                ));
                assert(rows.deep_view().take(i as int + 1).last() == rows[i as int]@);
            }
            if rows[i].recipe_id == id {
                let ghost before = lines.deep_view();
                lines.push(rows[i].value.clone());
                assert(lines.deep_view() =~= before.push(rows[i as int]@.value));
            }
            i += 1;
        }
        lines
    }

    fn tag_rows(&self) -> (rows: Vec<ChildRow>)
        requires
            self@.well_formed(),
        ensures
            rows.deep_view() == self@.committed().tags,
    {
        let (_, _, n) = self.committed_lengths();
        let mut rows: Vec<ChildRow> = Vec::new();
        let mut i: usize = 0;
        while i < n
            invariant
                i <= n <= self.tags.len(),
                rows.deep_view() == self.tags.deep_view().take(i as int),
            decreases n - i,
        {
            let ghost before = rows.deep_view();
            rows.push(
                ChildRow { recipe_id: self.tags[i].recipe_id, value: self.tags[i].value.clone() },
            );
            assert(rows.deep_view() =~= before.push(self.tags[i as int]@));
            assert(rows.deep_view() =~= self.tags.deep_view().take(i as int + 1));
            i += 1;
        }
        rows
    }

    /// Answers `query` from the rows that are committed. `pick` decides which
    /// recipe a random choice falls on.
    pub fn answer(&self, query: &Query, pick: u64) -> (answer: Answer)
        requires
            self@.well_formed(),
        ensures
            answer@ == self@.answer(*query, pick),
    {
        let (n, ingredients, tags) = self.committed_lengths();
        match query {
            Query::Recipe(id) => Answer::Row(self.recipe_row(*id)),
            Query::Ingredients(id) => Answer::Lines(Self::values(&self.ingredients, ingredients, *id)),
            Query::Tags(id) => Answer::Lines(Self::values(&self.tags, tags, *id)),
            Query::RandomId => {
                if n == 0 {
                    Answer::Id(None)
                } else {
                    let at: usize = (pick % (n as u64)) as usize;
                    assert(self@.committed().recipes[at as int] == self.recipes[at as int]@);
                    Answer::Id(Some(self.recipes[at].id))
                }
            },
            Query::TagRows => Answer::TagRows(self.tag_rows()),
        }
    }
}

/// A row that is found among the first rows is found among all of them.
pub proof fn lemma_find_row_stays(rows: Seq<RecipeRowView>, k: int, id: i64)
    requires
        0 <= k <= rows.len(),
        find_row(rows.take(k), id) is Some,
    ensures
        find_row(rows, id) == find_row(rows.take(k), id),
    decreases rows.len() - k,
{
    if k == rows.len() {
        assert(rows.take(k) =~= rows);
    } else {
        assert(rows.take(k + 1).drop_last() =~= rows.take(k));
        lemma_find_row_stays(rows, k + 1, id);
    }
}

} // verus!
