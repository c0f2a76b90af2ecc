//! Where the store lives, and what is read from it and written to it.

use crate::error::{ended, ErrorView, RecipeServerError};
use crate::import::{
    countable, distance, import_all, lemma_statement_keeps_track, on_track, outcome_view, ImportStep,
    ImportStepView, Importer, ImporterView,
};
use crate::recipe::{
    normalize_tag, normalize_tags, normalized, normalized_all, split_preparation, split_steps,
    Recipe, RecipeView,
};
use crate::store::{
    find_row, nested_transaction, values_of, Answer, AnswerView, ChildRow, ChildRowView, Query,
    RecipeRow, RecipeRowView, Statement, StatementView, Store, StoreView, Tables,
};
use crate::text::{ends_with, is_last_of, rfind, starts_with};
use vstd::prelude::*;

verus! {

/// The location used when none is given: a file under the directory `db`.
pub open spec fn default_uri() -> Seq<char> {
    "sqlite://db/recipe-server.db"@
}

/// Picks the location of the store: the one given explicitly, else the one
/// that the environment provides, else the default.
pub fn get_uri(db_uri: Option<&str>, env_uri: Option<String>) -> (uri: String)
    ensures
        uri@ == match (db_uri, env_uri) {
            (Some(given), _) => given@,
            (None, Some(provided)) => provided@,
            (None, None) => default_uri(),
        },
{
    match db_uri {
        Some(given) => given.to_owned(),
        None => match env_uri {
            Some(provided) => provided,
            None => "sqlite://db/recipe-server.db".to_owned(),
        },
    }
}

/// Whether `uri` names a store: `sqlite://`, a path, and the ending `.db`.
pub open spec fn is_store_uri(uri: Seq<char>) -> bool {
    "sqlite://"@.is_prefix_of(uri) && ".db"@.is_suffix_of(uri)
}

/// What stands in `s` before its last `c`; nothing where `s` holds no `c`.
pub open spec fn before_last(s: Seq<char>, c: char) -> Seq<char>
    decreases s.len(),
{
    if s.len() == 0 {
        Seq::<char>::empty()
    } else if s.last() == c {
        s.drop_last()
    } else {
        before_last(s.drop_last(), c)
    }
}

/// The directory of the store file that `uri` names: what stands between
/// `sqlite://` and the last `/` of the path.
pub open spec fn directory_of(uri: Seq<char>) -> Seq<char> {
    before_last(uri.skip(9), '/')
}

proof fn lemma_before_last(s: Seq<char>, c: char, found: Option<usize>)
    requires
        is_last_of(s, c, found),
    ensures
        before_last(s, c) == match found {
            Some(i) => s.take(i as int),
            None => Seq::<char>::empty(),
        },
    decreases s.len(),
{
    if s.len() > 0 {
        if s.last() == c {
            assert(s[s.len() - 1] == c);
            match found {
                Some(i) => {
                    assert(i == s.len() - 1);
                    assert(s.drop_last() =~= s.take(i as int));
                },
                None => {},
            }
        } else {
            assert(is_last_of(s.drop_last(), c, found)) by {
                match found {
                    Some(i) => {
                        assert(i < s.len() - 1);
                        assert(s.drop_last()[i as int] == s[i as int]);
                        assert forall|j: int| i < j < s.drop_last().len() implies s.drop_last()[j]
                            != c by {
                            assert(s.drop_last()[j] == s[j]);
                        }
                    },
                    None => {
                        assert forall|j: int| 0 <= j < s.drop_last().len() implies s.drop_last()[j]
                            != c by {
                            assert(s.drop_last()[j] == s[j]);
                        }
                    },
                }
            }
            lemma_before_last(s.drop_last(), c, found);
            match found {
                Some(i) => {
                    assert(s.drop_last().take(i as int) =~= s.take(i as int));
                },
                None => {},
            }
        }
    }
}

/// Gives the directory in which the store file of `db_uri` lies, or refuses
/// a location that does not name a store.
pub fn extract_dir(db_uri: &str) -> (dir: Result<&str, RecipeServerError>)
    ensures
        match dir {
            Ok(path) => is_store_uri(db_uri@) && path@ == directory_of(db_uri@),
            Err(error) => !is_store_uri(db_uri@) && error@ == ErrorView::InvalidLocation(
                db_uri@,
            ),
        },
{
    if starts_with(db_uri, "sqlite://") && ends_with(db_uri, ".db") {
        proof {
            reveal_strlit("sqlite://");
        }
        let n: usize = db_uri.unicode_len();
        let path = db_uri.substring_char(9, n);
        assert(path@ =~= db_uri@.skip(9));
        let found = rfind(path, '/');
        proof {
            lemma_before_last(path@, '/', found);
        }
        match found {
            Some(end) => {
                let dir = path.substring_char(0, end);
                assert(dir@ =~= path@.take(end as int));
                Ok(dir)
            },
            None => {
                proof {
                    reveal_strlit("");
                    assert(""@ =~= Seq::<char>::empty());
                }
                Ok("")
            },
        }
    } else {
        Err(RecipeServerError::InvalidLocation(db_uri.to_owned()))
    }
}

/// The text of the failure reported when the store answers a question that
/// was not asked.
pub open spec fn unexpected_answer() -> Seq<char> {
    "unexpected answer from the store"@
}

fn unexpected() -> (error: RecipeServerError)
    ensures
        error@ == ErrorView::StorageError(unexpected_answer()),
{
    RecipeServerError::StorageError("unexpected answer from the store".to_owned())
}

/// The text of the failure reported for a row whose id is no id of a recipe.
pub open spec fn id_out_of_range() -> Seq<char> {
    "recipe id out of range"@
}

/// Whether a stored id is the id of a recipe: not negative, and within 32
/// bits.
pub open spec fn is_recipe_id(id: i64) -> bool {
    0 <= id <= u32::MAX
}

/// The recipe that a row of `recipes` and the rows of its ingredients and
/// tags make, its preparation text read as steps again; a failure of the
/// store where the id of the row is no id of a recipe.
pub open spec fn assembled(
    row: RecipeRowView,
    ingredients: Seq<Seq<char>>,
    tags: Seq<Seq<char>>,
) -> Result<RecipeView, ErrorView> {
    if is_recipe_id(row.id) {
        Ok(
            RecipeView {
                id: row.id as u32,
                name: row.name,
                ingredients,
                preparation: split_steps(row.preparation),
                source: row.source,
                tags,
            },
        )
    } else {
        Err(ErrorView::StorageError(id_out_of_range()))
    }
}

fn out_of_range() -> (error: RecipeServerError)
    ensures
        error@ == ErrorView::StorageError(id_out_of_range()),
{
    RecipeServerError::StorageError("recipe id out of range".to_owned())
}

/// A result with a recipe, as plain values.
pub open spec fn fetched(result: Result<Recipe, RecipeServerError>) -> Result<
    RecipeView,
    ErrorView,
> {
    match result {
        Ok(recipe) => Ok(recipe@),
        Err(error) => Err(error@),
    }
}

/// A fetch of one recipe between two questions.
#[derive(Debug, PartialEq, Eq)]
pub enum FetchRecipe {
    /// The row of the recipe was asked for.
    AwaitRow { id: i64 },
    /// The row is here; its ingredients were asked for.
    AwaitIngredients { row: RecipeRow },
    /// Row and ingredients are here; the tags were asked for.
    AwaitTags { row: RecipeRow, ingredients: Vec<String> },
}

/// A fetch between two questions, as plain values.
pub enum FetchRecipeView {
    AwaitRow { id: i64 },
    AwaitIngredients { row: RecipeRowView },
    AwaitTags { row: RecipeRowView, ingredients: Seq<Seq<char>> },
}

impl View for FetchRecipe {
    type V = FetchRecipeView;

    open spec fn view(&self) -> FetchRecipeView {
        match self {
            FetchRecipe::AwaitRow { id } => FetchRecipeView::AwaitRow { id: *id },
            FetchRecipe::AwaitIngredients { row } => FetchRecipeView::AwaitIngredients {
                row: row@,
            },
            FetchRecipe::AwaitTags { row, ingredients } => FetchRecipeView::AwaitTags {
                row: row@,
                ingredients: ingredients.deep_view(),
            },
        }
    }
}

/// What a fetch asks for next.
#[derive(Debug, PartialEq, Eq)]
pub enum FetchStep {
    /// Put the question to the store and hand the answer to the fetch.
    Ask(FetchRecipe, Query),
    /// The fetch has ended.
    Done(Result<Recipe, RecipeServerError>),
}

/// A step of a fetch as plain values.
pub enum FetchStepView {
    Ask(FetchRecipeView, Query),
    Done(Result<RecipeView, ErrorView>),
}

impl View for FetchStep {
    type V = FetchStepView;

    open spec fn view(&self) -> FetchStepView {
        match self {
            FetchStep::Ask(fetch, query) => FetchStepView::Ask(fetch@, *query),
            FetchStep::Done(result) => FetchStepView::Done(fetched(*result)),
        }
    }
}

/// The failure that a question ends with when the store fails, or answers
/// something else than was asked.
pub open spec fn storage_failure_of(answer: AnswerView) -> ErrorView {
    match answer {
        AnswerView::Failed(reason) => ErrorView::StorageError(reason),
        _ => ErrorView::StorageError(unexpected_answer()),
    }
}

impl FetchRecipeView {
    /// The fetch of the recipe `id` begins: its row is asked for.
    pub open spec fn begin(id: i64) -> FetchStepView {
        FetchStepView::Ask(FetchRecipeView::AwaitRow { id }, Query::Recipe(id))
    }

    /// What follows `answer`. The row comes first: without it the fetch
    /// ends with `NotFound` and asks nothing more, and a row whose id is no
    /// id of a recipe ends it with a failure of the store. Then come the
    /// ingredients, then the tags, each for the id of the row; with all
    /// three the recipe is assembled. A failure of the store ends the fetch
    /// at once.
    pub open spec fn resume(self, answer: AnswerView) -> FetchStepView {
        match (self, answer) {
            (FetchRecipeView::AwaitRow { id }, AnswerView::Row(Some(row))) => if is_recipe_id(
                row.id,
            ) {
                FetchStepView::Ask(
                    FetchRecipeView::AwaitIngredients { row },
                    Query::Ingredients(row.id),
                )
            } else {
                FetchStepView::Done(Err(ErrorView::StorageError(id_out_of_range())))
            },
            (FetchRecipeView::AwaitRow { id }, AnswerView::Row(None)) => FetchStepView::Done(
                Err(ErrorView::NotFound(id)),
            ),
            (
                FetchRecipeView::AwaitIngredients { row },
                AnswerView::Lines(ingredients),
            ) => FetchStepView::Ask(
                FetchRecipeView::AwaitTags { row, ingredients },
                Query::Tags(row.id),
            ),
            (
                FetchRecipeView::AwaitTags { row, ingredients },
                AnswerView::Lines(tags),
            ) => FetchStepView::Done(assembled(row, ingredients, tags)),
            _ => FetchStepView::Done(Err(storage_failure_of(answer))),
        }
    }
}

fn storage_failure(answer: Answer) -> (error: RecipeServerError)
    ensures
        error@ == storage_failure_of(answer@),
{
    match answer {
        Answer::Failed(reason) => RecipeServerError::StorageError(reason),
        _ => unexpected(),
    }
}

/// Starts the fetch of the recipe with this id: its row is asked for.
pub fn fetch_recipe(recipe_id: i64) -> (step: FetchStep)
    ensures
        step@ == FetchRecipeView::begin(recipe_id),
{
    FetchStep::Ask(FetchRecipe::AwaitRow { id: recipe_id }, Query::Recipe(recipe_id))
}

impl FetchRecipe {
    /// Takes the answer to the question that was asked last and says what
    /// follows.
    pub fn resume(self, answer: Answer) -> (step: FetchStep)
        ensures
            step@ == self@.resume(answer@),
    {
        match self {
            FetchRecipe::AwaitRow { id } => match answer {
                Answer::Row(Some(row)) => {
                    let id = row.id;
                    if 0 <= id && id <= 0xFFFF_FFFF {
                        FetchStep::Ask(
                            FetchRecipe::AwaitIngredients { row },
                            Query::Ingredients(id),
                        )
                    } else {
                        FetchStep::Done(Err(out_of_range()))
                    }
                },
                Answer::Row(None) => FetchStep::Done(Err(RecipeServerError::NotFound(id))),
                other => FetchStep::Done(Err(storage_failure(other))),
            },
            FetchRecipe::AwaitIngredients { row } => match answer {
                Answer::Lines(ingredients) => {
                    let id = row.id;
                    FetchStep::Ask(FetchRecipe::AwaitTags { row, ingredients }, Query::Tags(id))
                },
                other => FetchStep::Done(Err(storage_failure(other))),
            },
            FetchRecipe::AwaitTags { row, ingredients } => match answer {
                Answer::Lines(tags) => {
                    if 0 <= row.id && row.id <= 0xFFFF_FFFF {
                        let preparation = split_preparation(row.preparation.as_str());
                        FetchStep::Done(
                            Ok(
                                Recipe {
                                    id: row.id as u32,
                                    name: row.name,
                                    ingredients,
                                    preparation,
                                    source: row.source,
                                    tags,
                                },
                            ),
                        )
                    } else {
                        FetchStep::Done(Err(out_of_range()))
                    }
                },
                other => FetchStep::Done(Err(storage_failure(other))),
            },
        }
    }
}

/// Says which recipe a random choice fell on, from the store's answer to
/// `Query::RandomId`: a store without recipes gives `StoreEmpty`.
pub fn random_recipe_id(answer: Answer) -> (result: Result<i64, RecipeServerError>)
    ensures
        match answer@ {
            AnswerView::Id(Some(id)) => result == Ok::<i64, RecipeServerError>(id),
            AnswerView::Id(None) => result matches Err(error) && error@ == ErrorView::StoreEmpty,
            _ => result matches Err(error) && error@ == storage_failure_of(answer@),
        },
{
    match answer {
        Answer::Id(Some(id)) => Ok(id),
        Answer::Id(None) => Err(RecipeServerError::StoreEmpty),
        other => Err(storage_failure(other)),
    }
}

/// Whether the recipe `id` has a row in `rows` whose tag is `tag`.
pub open spec fn carries(rows: Seq<ChildRowView>, id: i64, tag: Seq<char>) -> bool {
    exists|i: int|
        0 <= i < rows.len() && (#[trigger] rows[i]).recipe_id == id && rows[i].value == tag
}

/// Whether the recipe `id` carries every tag of `wanted`.
pub open spec fn carries_all(rows: Seq<ChildRowView>, id: i64, wanted: Seq<Seq<char>>) -> bool {
    forall|j: int| 0 <= j < wanted.len() ==> carries(rows, id, #[trigger] wanted[j])
}

/// Whether `found` is the recipe that a lookup by the tags `wanted` gives:
/// the smallest id that carries all of them; none where no recipe does, or
/// where no tag is wanted.
pub open spec fn is_tag_match(
    rows: Seq<ChildRowView>,
    wanted: Seq<Seq<char>>,
    found: Option<i64>,
) -> bool {
    match found {
        Some(id) => {
            &&& wanted.len() > 0
            &&& carries_all(rows, id, wanted)
            &&& forall|other: i64| other < id ==> !carries_all(rows, other, wanted)
        },
        None => wanted.len() == 0 || forall|id: i64| !carries_all(rows, id, wanted),
    }
}

fn row_carries(rows: &Vec<ChildRow>, id: i64, tag: &String) -> (yes: bool)
    ensures
        yes == carries(rows.deep_view(), id, tag@),
{
    let mut i: usize = 0;
    while i < rows.len()
        invariant
            i <= rows.len(),
            forall|j: int|
                0 <= j < i ==> !((#[trigger] rows.deep_view()[j]).recipe_id == id
                    && rows.deep_view()[j].value == tag@),
        decreases rows.len() - i,
    {
        assert(rows.deep_view()[i as int] == rows[i as int]@);
        if rows[i].recipe_id == id && rows[i].value == *tag {
            return true;
        }
        i += 1;
    }
    false
}

fn row_carries_all(rows: &Vec<ChildRow>, id: i64, wanted: &Vec<String>) -> (yes: bool)
    ensures
        yes == carries_all(rows.deep_view(), id, wanted.deep_view()),
{
    let mut j: usize = 0;
    while j < wanted.len()
        invariant
            j <= wanted.len(),
            forall|k: int|
                0 <= k < j ==> carries(rows.deep_view(), id, #[trigger] wanted.deep_view()[k]),
        decreases wanted.len() - j,
    {
        assert(wanted.deep_view()[j as int] == wanted[j as int]@);
        if !row_carries(rows, id, &wanted[j]) {
            return false;
        }
        j += 1;
    }
    true
}

/// Finds among the rows of tags the recipe that carries every one of
/// `wanted`, the tags compared as they stand: the smallest such id.
pub fn find_by_tags(rows: &Vec<ChildRow>, wanted: &Vec<String>) -> (found: Option<i64>)
    ensures
        is_tag_match(rows.deep_view(), wanted.deep_view(), found),
{
    if wanted.len() == 0 {
        return None;
    }
    let mut best: Option<i64> = None;
    let mut r: usize = 0;
    while r < rows.len()
        invariant
            r <= rows.len(),
            wanted.len() > 0,
            match best {
                Some(id) => {
                    &&& carries_all(rows.deep_view(), id, wanted.deep_view())
                    &&& forall|k: int|
                        0 <= k < r && carries_all(
                            rows.deep_view(),
                            (#[trigger] rows.deep_view()[k]).recipe_id,
                            wanted.deep_view(),
                        ) ==> id <= rows.deep_view()[k].recipe_id
                },
                None => forall|k: int|
                    0 <= k < r ==> !carries_all(
                        rows.deep_view(),
                        (#[trigger] rows.deep_view()[k]).recipe_id,
                        wanted.deep_view(),
                    ),
            },
        decreases rows.len() - r,
    {
        let id = rows[r].recipe_id;
        assert(rows.deep_view()[r as int] == rows[r as int]@);
        let better = match best {
            Some(least) => id < least,
            None => true,
        };
        if better && row_carries_all(rows, id, wanted) {
            best = Some(id);
        }
        r += 1;
    }
    proof {
        // A recipe that carries the first wanted tag has a row, so the rows
        // that were looked at cover every recipe that can match.
        assert forall|id: i64|
            carries_all(rows.deep_view(), id, wanted.deep_view()) implies match best {
            Some(least) => least <= id,
            None => false,
        } by {
            assert(carries(rows.deep_view(), id, wanted.deep_view()[0]));
            let k = choose|k: int|
                0 <= k < rows.len() && (#[trigger] rows.deep_view()[k]).recipe_id == id
                    && rows.deep_view()[k].value == wanted.deep_view()[0];
            assert(rows.deep_view()[k].recipe_id == id);
        }
    }
    best
}

/// The rows with each tag in its compared form.
pub open spec fn normalized_rows(rows: Seq<ChildRowView>) -> Seq<ChildRowView> {
    Seq::new(
        rows.len(),
        |i: int| ChildRowView { recipe_id: rows[i].recipe_id, value: normalized(rows[i].value) },
    )
}

/// Brings the tag of every row into its compared form.
pub fn normalize_rows(rows: &Vec<ChildRow>) -> (normal: Vec<ChildRow>)
    ensures
        normal.deep_view() == normalized_rows(rows.deep_view()),
{
    let mut normal: Vec<ChildRow> = Vec::new();
    let mut i: usize = 0;
    while i < rows.len()
        invariant
            i <= rows.len(),
            normal.deep_view() == normalized_rows(rows.deep_view()).take(i as int),
        decreases rows.len() - i,
    {
        let ghost before = normal.deep_view();
        let row = ChildRow {
            recipe_id: rows[i].recipe_id,
            value: normalize_tag(rows[i].value.as_str()),
        };
        assert(rows.deep_view()[i as int] == rows[i as int]@);
        normal.push(row);
        assert(normal.deep_view() =~= before.push(row@));
        assert(normal.deep_view() =~= normalized_rows(rows.deep_view()).take(i as int + 1));
        i += 1;
    }
    assert(normalized_rows(rows.deep_view()).take(rows.len() as int) =~= normalized_rows(
        rows.deep_view(),
    ));
    normal
}

/// The recipe that a lookup by the tags `wanted` gives among `rows`, all
/// tags taken in their compared form.
pub open spec fn is_normal_match(
    rows: Seq<ChildRowView>,
    wanted: Seq<Seq<char>>,
    found: Option<i64>,
) -> bool {
    is_tag_match(normalized_rows(rows), normalized_all(wanted), found)
}

/// Finds the recipe that carries every one of `tags`, from the store's
/// answer to `Query::TagRows`. Tags are compared without the white space
/// around them and without regard to case. Of several recipes that carry
/// them all, the one with the smallest id is given.
pub fn fetch_recipe_id(answer: Answer, tags: &Vec<String>) -> (result: Result<
    Option<i64>,
    RecipeServerError,
>)
    ensures
        match answer@ {
            AnswerView::TagRows(rows) => result matches Ok(found) && is_normal_match(
                rows,
                tags.deep_view(),
                found,
            ),
            _ => result matches Err(error) && error@ == storage_failure_of(answer@),
        },
{
    match answer {
        Answer::TagRows(rows) => {
            let normal = normalize_rows(&rows);
            let wanted = normalize_tags(tags);
            Ok(find_by_tags(&normal, &wanted))
        },
        other => Err(storage_failure(other)),
    }
}

/// The recipe with this id as the rows hold it; `NotFound` where no row has
/// the id.
pub open spec fn recipe_in(rows: Tables, id: i64) -> Result<RecipeView, ErrorView> {
    match find_row(rows.recipes, id) {
        Some(row) => assembled(
            row,
            values_of(rows.ingredients, row.id),
            values_of(rows.tags, row.id),
        ),
        None => Err(ErrorView::NotFound(id)),
    }
}

/// How many answers a fetch still needs.
spec fn answers_needed(step: FetchStepView) -> nat {
    match step {
        FetchStepView::Ask(FetchRecipeView::AwaitRow { .. }, _) => 3,
        FetchStepView::Ask(FetchRecipeView::AwaitIngredients { .. }, _) => 2,
        FetchStepView::Ask(FetchRecipeView::AwaitTags { .. }, _) => 1,
        FetchStepView::Done(_) => 0,
    }
}

/// What holds of a fetch of `id` from `rows` at each of its steps.
spec fn fetch_on_track(rows: Tables, id: i64, step: FetchStepView) -> bool {
    match step {
        FetchStepView::Ask(FetchRecipeView::AwaitRow { id: asked }, query) => asked == id && query
            == Query::Recipe(id),
        FetchStepView::Ask(FetchRecipeView::AwaitIngredients { row }, query) => find_row(
            rows.recipes,
            id,
        ) == Some(row) && query == Query::Ingredients(row.id),
        FetchStepView::Ask(FetchRecipeView::AwaitTags { row, ingredients }, query) => find_row(
            rows.recipes,
            id,
        ) == Some(row) && ingredients == values_of(rows.ingredients, row.id) && query
            == Query::Tags(row.id),
        FetchStepView::Done(result) => result == recipe_in(rows, id),
    }
}

impl Store {
    /// Fetches the recipe with this id from the committed rows: its row,
    /// its ingredients and its tags in the order of their rows, and its
    /// preparation read as steps again.
    #[verifier::loop_isolation(false)]
    pub fn fetch_recipe(&self, recipe_id: i64) -> (result: Result<Recipe, RecipeServerError>)
        requires
            self@.well_formed(),
        ensures
            fetched(result) == recipe_in(self@.committed(), recipe_id),
    {
        let mut step = fetch_recipe(recipe_id);
        loop
            invariant
                fetch_on_track(self@.committed(), recipe_id, step@),
            decreases answers_needed(step@),
        {
            match step {
                FetchStep::Done(result) => {
                    return result;
                },
                FetchStep::Ask(fetch, query) => {
                    let answer = self.answer(&query, 0);
                    step = fetch.resume(answer);
                },
            }
        }
    }

    /// Picks the id of one of the committed recipes; `pick` decides which.
    /// A store without recipes gives `StoreEmpty`.
    pub fn random_recipe_id(&self, pick: u64) -> (result: Result<i64, RecipeServerError>)
        requires
            self@.well_formed(),
        ensures
            match result {
                Ok(id) => {
                    let recipes = self@.committed().recipes;
                    &&& recipes.len() > 0
                    &&& id == recipes[pick as int % recipes.len() as int].id
                    &&& self@.committed().has_recipe(id)
                },
                Err(error) => self@.committed().recipes.len() == 0 && error@
                    == ErrorView::StoreEmpty,
            },
    {
        let answer = self.answer(&Query::RandomId, pick);
        proof {
            let recipes = self@.committed().recipes;
            if recipes.len() > 0 {
                let at = pick as int % recipes.len() as int;
                assert(0 <= at < recipes.len());
                assert(recipes[at].id == recipes[at].id);
            }
        }
        random_recipe_id(answer)
    }

    /// Finds the committed recipe that carries every one of `tags`: the one
    /// with the smallest id, or none. No match is no failure.
    pub fn fetch_recipe_id(&self, tags: &Vec<String>) -> (result: Result<
        Option<i64>,
        RecipeServerError,
    >)
        requires
            self@.well_formed(),
        ensures
            result matches Ok(found) && is_normal_match(
                self@.committed().tags,
                tags.deep_view(),
                found,
            ),
    {
        let answer = self.answer(&Query::TagRows, 0);
        fetch_recipe_id(answer, tags)
    }
}

/// A lookup by tags of which one is the tag of no row finds no recipe.
pub proof fn lemma_unknown_tag_finds_nothing(
    rows: Seq<ChildRowView>,
    wanted: Seq<Seq<char>>,
    found: Option<i64>,
    j: int,
)
    requires
        is_tag_match(rows, wanted, found),
        0 <= j < wanted.len(),
        forall|i: int| 0 <= i < rows.len() ==> (#[trigger] rows[i]).value != wanted[j],
    ensures
        found is None,
{
    if let Some(id) = found {
        assert(carries(rows, id, wanted[j]));
    }
}

/// A lookup by tags, one of which is in its compared form the tag of no
/// row, finds no recipe: it ends without a match, not with a failure.
pub proof fn lemma_unknown_tag_is_no_match(
    rows: Seq<ChildRowView>,
    wanted: Seq<Seq<char>>,
    found: Option<i64>,
    j: int,
)
    requires
        is_normal_match(rows, wanted, found),
        0 <= j < wanted.len(),
        forall|i: int|
            0 <= i < rows.len() ==> normalized((#[trigger] rows[i]).value) != normalized(wanted[j]),
    ensures
        found is None,
{
    let normal = normalized_rows(rows);
    assert forall|i: int| 0 <= i < normal.len() implies (#[trigger] normal[i]).value
        != normalized_all(wanted)[j] by {
        assert(normal[i].value == normalized(rows[i].value));
    }
    lemma_unknown_tag_finds_nothing(normal, normalized_all(wanted), found, j);
}

/// What the start of the service asks of its surroundings.
#[derive(Debug, PartialEq, Eq)]
pub enum Setup {
    /// Find out whether the store exists.
    ProbeStore,
    /// Create this directory and those above it.
    CreateDirectory(String),
    /// Create an empty store.
    CreateStore,
    /// Open the store.
    Connect,
    /// Bring the schema up to date.
    Migrate,
    /// Read the recipes of the seed file.
    ReadSeed,
    /// Carry out a statement of the import.
    Run(Statement),
}

/// A request of the start as plain values.
pub enum SetupView {
    ProbeStore,
    CreateDirectory(Seq<char>),
    CreateStore,
    Connect,
    Migrate,
    ReadSeed,
    Run(StatementView),
}

impl View for Setup {
    type V = SetupView;

    open spec fn view(&self) -> SetupView {
        match self {
            Setup::ProbeStore => SetupView::ProbeStore,
            Setup::CreateDirectory(dir) => SetupView::CreateDirectory(dir@),
            Setup::CreateStore => SetupView::CreateStore,
            Setup::Connect => SetupView::Connect,
            Setup::Migrate => SetupView::Migrate,
            Setup::ReadSeed => SetupView::ReadSeed,
            Setup::Run(statement) => SetupView::Run(statement@),
        }
    }
}

/// What came of a request of the start.
#[derive(Debug, PartialEq, Eq)]
pub enum Event {
    /// The store exists, or it does not.
    Exists(bool),
    /// What was asked for is done.
    Completed,
    /// The recipes of the seed file.
    Seed(Vec<Recipe>),
    /// The seed file could not be read.
    SeedUnreadable(String),
    /// The seed file holds something else than a list of recipes.
    SeedMalformed(String),
    /// What was asked for failed.
    Failed(String),
}

/// What came of a request, as plain values.
pub enum EventView {
    Exists(bool),
    Completed,
    Seed(Seq<RecipeView>),
    SeedUnreadable(Seq<char>),
    SeedMalformed(Seq<char>),
    Failed(Seq<char>),
}

impl View for Event {
    type V = EventView;

    open spec fn view(&self) -> EventView {
        match self {
            Event::Exists(exists) => EventView::Exists(*exists),
            Event::Completed => EventView::Completed,
            Event::Seed(recipes) => EventView::Seed(recipes.deep_view()),
            Event::SeedUnreadable(reason) => EventView::SeedUnreadable(reason@),
            Event::SeedMalformed(reason) => EventView::SeedMalformed(reason@),
            Event::Failed(reason) => EventView::Failed(reason@),
        }
    }
}

/// The start of the service between two requests.
#[derive(Debug, PartialEq, Eq)]
pub enum Init {
    Probing { uri: String, seed: bool },
    CreatingDirectory { seed: bool },
    CreatingStore { seed: bool },
    Connecting { seed: bool },
    Migrating { seed: bool },
    ReadingSeed,
    Importing(Importer),
}

/// The start between two requests, as plain values.
pub enum InitView {
    Probing { uri: Seq<char>, seed: bool },
    CreatingDirectory { seed: bool },
    CreatingStore { seed: bool },
    Connecting { seed: bool },
    Migrating { seed: bool },
    ReadingSeed,
    Importing(ImporterView),
}

impl View for Init {
    type V = InitView;

    open spec fn view(&self) -> InitView {
        match self {
            Init::Probing { uri, seed } => InitView::Probing { uri: uri@, seed: *seed },
            Init::CreatingDirectory { seed } => InitView::CreatingDirectory { seed: *seed },
            Init::CreatingStore { seed } => InitView::CreatingStore { seed: *seed },
            Init::Connecting { seed } => InitView::Connecting { seed: *seed },
            Init::Migrating { seed } => InitView::Migrating { seed: *seed },
            Init::ReadingSeed => InitView::ReadingSeed,
            Init::Importing(importer) => InitView::Importing(importer@),
        }
    }
}

/// What the start asks for next.
#[derive(Debug, PartialEq, Eq)]
pub enum InitStep {
    /// Do what is asked and hand what came of it to the start.
    Do(Init, Setup),
    /// The start has ended: the store is ready, or the service cannot run.
    Ready(Result<(), RecipeServerError>),
}

/// A step of the start as plain values.
pub enum InitStepView {
    Do(InitView, SetupView),
    Ready(Result<(), ErrorView>),
}

impl View for InitStep {
    type V = InitStepView;

    open spec fn view(&self) -> InitStepView {
        match self {
            InitStep::Do(init, setup) => InitStepView::Do(init@, setup@),
            InitStep::Ready(result) => InitStepView::Ready(ended(*result)),
        }
    }
}

/// A step of the import as a step of the start.
pub open spec fn importing(step: ImportStepView) -> InitStepView {
    match step {
        ImportStepView::Run(importer, statement) => InitStepView::Do(
            InitView::Importing(importer),
            SetupView::Run(statement),
        ),
        ImportStepView::Done(result) => InitStepView::Ready(result),
    }
}

impl InitView {
    /// The start begins: whether the store exists is asked first.
    pub open spec fn begin(uri: Seq<char>, seed: bool) -> InitStepView {
        InitStepView::Do(InitView::Probing { uri, seed }, SetupView::ProbeStore)
    }

    /// What follows `event`. A store that exists is opened; one that does
    /// not is created first, its directory before it, and a location that
    /// names no store ends the start with `InvalidLocation`. After the store
    /// is open its schema is brought up to date, and with a seed the import
    /// follows. What fails before the store is open gives
    /// `StorageUnavailable`, a failed migration `SchemaError`, a seed that
    /// cannot be had `SeedUnreadable` or `SeedMalformed`.
    pub open spec fn resume(self, event: EventView) -> InitStepView {
        match (self, event) {
            (InitView::Probing { uri, seed }, EventView::Exists(true)) => InitStepView::Do(
                InitView::Connecting { seed },
                SetupView::Connect,
            ),
            (InitView::Probing { uri, seed }, EventView::Exists(false)) => if is_store_uri(uri) {
                InitStepView::Do(
                    InitView::CreatingDirectory { seed },
                    SetupView::CreateDirectory(directory_of(uri)),
                )
            } else {
                InitStepView::Ready(Err(ErrorView::InvalidLocation(uri)))
            },
            (InitView::CreatingDirectory { seed }, EventView::Completed) => InitStepView::Do(
                InitView::CreatingStore { seed },
                SetupView::CreateStore,
            ),
            (InitView::CreatingStore { seed }, EventView::Completed) => InitStepView::Do(
                InitView::Connecting { seed },
                SetupView::Connect,
            ),
            (InitView::Connecting { seed }, EventView::Completed) => InitStepView::Do(
                InitView::Migrating { seed },
                SetupView::Migrate,
            ),
            (InitView::Migrating { seed }, EventView::Completed) => if seed {
                InitStepView::Do(InitView::ReadingSeed, SetupView::ReadSeed)
            } else {
                InitStepView::Ready(Ok(()))
            },
            (InitView::ReadingSeed, EventView::Seed(recipes)) => importing(
                ImporterView::begin_at(recipes, 0),
            ),
            (InitView::ReadingSeed, EventView::SeedUnreadable(reason)) => InitStepView::Ready(
                Err(ErrorView::SeedUnreadable(reason)),
            ),
            (InitView::ReadingSeed, EventView::SeedMalformed(reason)) => InitStepView::Ready(
                Err(ErrorView::SeedMalformed(reason)),
            ),
            (InitView::Importing(importer), EventView::Completed) => importing(
                importer.resume(Ok(())),
            ),
            (InitView::Importing(importer), EventView::Failed(reason)) => importing(
                importer.resume(Err(reason)),
            ),
            (InitView::Probing { .. }, EventView::Failed(reason))
            | (InitView::CreatingDirectory { .. }, EventView::Failed(reason))
            | (InitView::CreatingStore { .. }, EventView::Failed(reason))
            | (InitView::Connecting { .. }, EventView::Failed(reason)) => InitStepView::Ready(
                Err(ErrorView::StorageUnavailable(reason)),
            ),
            (InitView::Migrating { .. }, EventView::Failed(reason)) => InitStepView::Ready(
                Err(ErrorView::SchemaError(reason)),
            ),
            (InitView::ReadingSeed, EventView::Failed(reason)) => InitStepView::Ready(
                Err(ErrorView::SeedUnreadable(reason)),
            ),
            _ => InitStepView::Ready(Err(ErrorView::StorageError(unexpected_answer()))),
        }
    }
}

/// Starts the service at the store that `db_uri` names, with a seed to
/// import or without one: the first thing to find out is whether the store
/// exists.
pub fn init(init_from: bool, db_uri: &str) -> (step: InitStep)
    ensures
        step@ == InitView::begin(db_uri@, init_from),
{
    InitStep::Do(Init::Probing { uri: db_uri.to_owned(), seed: init_from }, Setup::ProbeStore)
}

fn import_step(step: ImportStep) -> (lifted: InitStep)
    ensures
        lifted@ == importing(step@),
{
    match step {
        ImportStep::Run(importer, statement) => InitStep::Do(
            Init::Importing(importer),
            Setup::Run(statement),
        ),
        ImportStep::Done(result) => InitStep::Ready(result),
    }
}

impl Init {
    /// Takes what came of the last request and says what follows.
    pub fn resume(self, event: Event) -> (step: InitStep)
        ensures
            step@ == self@.resume(event@),
    {
        match self {
            Init::Probing { uri, seed } => match event {
                Event::Exists(true) => InitStep::Do(Init::Connecting { seed }, Setup::Connect),
                Event::Exists(false) => match extract_dir(uri.as_str()) {
                    Ok(dir) => InitStep::Do(
                        Init::CreatingDirectory { seed },
                        Setup::CreateDirectory(dir.to_owned()),
                    ),
                    Err(error) => InitStep::Ready(Err(error)),
                },
                Event::Failed(reason) => InitStep::Ready(
                    Err(RecipeServerError::StorageUnavailable(reason)),
                ),
                _ => InitStep::Ready(Err(unexpected())),
            },
            Init::CreatingDirectory { seed } => match event {
                Event::Completed => InitStep::Do(Init::CreatingStore { seed }, Setup::CreateStore),
                Event::Failed(reason) => InitStep::Ready(
                    Err(RecipeServerError::StorageUnavailable(reason)),
                ),
                _ => InitStep::Ready(Err(unexpected())),
            },
            Init::CreatingStore { seed } => match event {
                Event::Completed => InitStep::Do(Init::Connecting { seed }, Setup::Connect),
                Event::Failed(reason) => InitStep::Ready(
                    Err(RecipeServerError::StorageUnavailable(reason)),
                ),
                _ => InitStep::Ready(Err(unexpected())),
            },
            Init::Connecting { seed } => match event {
                Event::Completed => InitStep::Do(Init::Migrating { seed }, Setup::Migrate),
                Event::Failed(reason) => InitStep::Ready(
                    Err(RecipeServerError::StorageUnavailable(reason)),
                ),
                _ => InitStep::Ready(Err(unexpected())),
            },
            Init::Migrating { seed } => match event {
                Event::Completed => {
                    if seed {
                        InitStep::Do(Init::ReadingSeed, Setup::ReadSeed)
                    } else {
                        InitStep::Ready(Ok(()))
                    }
                },
                Event::Failed(reason) => InitStep::Ready(
                    Err(RecipeServerError::SchemaError(reason)),
                ),
                _ => InitStep::Ready(Err(unexpected())),
            },
            Init::ReadingSeed => match event {
                Event::Seed(recipes) => import_step(Importer::start(recipes)),
                Event::SeedUnreadable(reason) => InitStep::Ready(
                    Err(RecipeServerError::SeedUnreadable(reason)),
                ),
                Event::SeedMalformed(reason) => InitStep::Ready(
                    Err(RecipeServerError::SeedMalformed(reason)),
                ),
                Event::Failed(reason) => InitStep::Ready(
                    Err(RecipeServerError::SeedUnreadable(reason)),
                ),
                _ => InitStep::Ready(Err(unexpected())),
            },
            Init::Importing(importer) => match event {
                Event::Completed => import_step(importer.resume(Ok(()))),
                Event::Failed(reason) => import_step(importer.resume(Err(reason))),
                _ => InitStep::Ready(Err(unexpected())),
            },
        }
    }
}

/// The store that the start opens: the one that exists, or a new and empty
/// one where the location names a store.
pub open spec fn opened(existing: Option<StoreView>, uri: Seq<char>) -> Result<
    StoreView,
    ErrorView,
> {
    match existing {
        Some(store) => Ok(store),
        None => if is_store_uri(uri) {
            Ok(StoreView { rows: Tables::empty(), marks: None, limit: None })
        } else {
            Err(ErrorView::InvalidLocation(uri))
        },
    }
}

/// What the start leaves: the store that was opened, with the recipes of
/// the seed imported into it; the failure where no store can be opened, or
/// where the store is inside a transaction and there is something to
/// import.
pub open spec fn started(
    existing: Option<StoreView>,
    seed: Option<Seq<RecipeView>>,
    uri: Seq<char>,
) -> Result<StoreView, ErrorView> {
    match opened(existing, uri) {
        Err(error) => Err(error),
        Ok(start) => match seed {
            None => Ok(start),
            Some(recipes) => if start.in_transaction() && recipes.len() > 0 {
                Err(ErrorView::StorageError(nested_transaction()))
            } else {
                Ok(StoreView { rows: import_all(start.rows, start.limit, recipes), ..start })
            },
        },
    }
}

/// A store that may be there, as plain values.
pub open spec fn store_view(store: Option<Store>) -> Option<StoreView> {
    match store {
        Some(store) => Some(store@),
        None => None,
    }
}

/// A seed that may be there, as plain values.
pub open spec fn seed_view(seed: Option<Vec<Recipe>>) -> Option<Seq<RecipeView>> {
    match seed {
        Some(recipes) => Some(recipes.deep_view()),
        None => None,
    }
}

/// A result with a store, as plain values.
pub open spec fn started_view(result: Result<Store, RecipeServerError>) -> Result<
    StoreView,
    ErrorView,
> {
    match result {
        Ok(store) => Ok(store@),
        Err(error) => Err(error@),
    }
}

/// How far the start is from the import.
spec fn requests_left(step: InitStepView) -> nat {
    match step {
        InitStepView::Do(InitView::Probing { .. }, _) => 7,
        InitStepView::Do(InitView::CreatingDirectory { .. }, _) => 6,
        InitStepView::Do(InitView::CreatingStore { .. }, _) => 5,
        InitStepView::Do(InitView::Connecting { .. }, _) => 4,
        InitStepView::Do(InitView::Migrating { .. }, _) => 3,
        InitStepView::Do(InitView::ReadingSeed, _) => 2,
        InitStepView::Do(InitView::Importing(_), _) => 1,
        InitStepView::Ready(_) => 0,
    }
}

/// How many recipes the import has before it.
spec fn recipes_left(step: InitStepView) -> nat {
    match step {
        InitStepView::Do(InitView::Importing(importer), _) => (importer.recipes.len()
            - importer.index) as nat,
        _ => 0,
    }
}

/// How far the open transaction is from its end.
spec fn statements_left(step: InitStepView) -> nat {
    match step {
        InitStepView::Do(InitView::Importing(importer), _) => distance(
            importer.recipes[importer.index as int],
            importer.phase,
        ),
        _ => 0,
    }
}

/// What holds of the stores in memory at each step of the start.
spec fn start_on_track(
    existing: Option<StoreView>,
    seed: Option<Seq<RecipeView>>,
    uri: Seq<char>,
    step: InitStepView,
    db: Option<StoreView>,
    held: Option<Seq<RecipeView>>,
) -> bool {
    let open = db matches Some(store) && opened(existing, uri) == Ok::<StoreView, ErrorView>(
        store,
    );
    match step {
        InitStepView::Do(InitView::Probing { uri: asked, seed: with_seed }, SetupView::ProbeStore) => {
            &&& asked == uri
            &&& with_seed == (seed is Some)
            &&& db == existing
            &&& held == seed
        },
        InitStepView::Do(
            InitView::CreatingDirectory { seed: with_seed },
            SetupView::CreateDirectory(_),
        ) | InitStepView::Do(
            InitView::CreatingStore { seed: with_seed },
            SetupView::CreateStore,
        ) => {
            &&& with_seed == (seed is Some)
            &&& existing is None
            &&& db is None
            &&& is_store_uri(uri)
            &&& held == seed
        },
        InitStepView::Do(InitView::Connecting { seed: with_seed }, SetupView::Connect)
        | InitStepView::Do(InitView::Migrating { seed: with_seed }, SetupView::Migrate) => {
            &&& with_seed == (seed is Some)
            &&& open
            &&& held == seed
        },
        InitStepView::Do(InitView::ReadingSeed, SetupView::ReadSeed) => {
            &&& seed is Some
            &&& open
            &&& held == seed
        },
        InitStepView::Do(InitView::Importing(importer), SetupView::Run(statement)) => {
            &&& seed matches Some(recipes)
            &&& db matches Some(store)
            &&& opened(existing, uri) matches Ok(start)
            &&& start.well_formed()
            &&& countable(recipes)
            &&& on_track(start, recipes, importer, statement, store)
        },
        InitStepView::Ready(Ok(_)) => db matches Some(store) && started(existing, seed, uri)
            == Ok::<StoreView, ErrorView>(store),
        InitStepView::Ready(Err(error)) => started(existing, seed, uri) == Err::<
            StoreView,
            ErrorView,
        >(error),
        _ => false,
    }
}

impl Store {
    /// Starts the service on stores in memory: `existing` is the store at
    /// `db_uri`, if there is one, and one that is not there is made new
    /// and empty. The recipes of `init_from` are imported as
    /// `import_recipes` imports them.
    #[verifier::loop_isolation(false)]
    pub fn init(existing: Option<Store>, init_from: Option<Vec<Recipe>>, db_uri: &str) -> (result:
        Result<Store, RecipeServerError>)
        requires
            existing matches Some(store) ==> store@.well_formed(),
        ensures
            started_view(result) == started(store_view(existing), seed_view(init_from), db_uri@),
            result matches Ok(store) ==> store@.well_formed(),
    {
        let ghost before = store_view(existing);
        let ghost seed = seed_view(init_from);
        proof {
            if let Some(recipes) = &init_from {
                assert(countable(recipes.deep_view())) by {
                    assert forall|i: int| 0 <= i < recipes.deep_view().len() implies (
                    #[trigger] recipes.deep_view()[i]).ingredients.len() <= usize::MAX
                        && recipes.deep_view()[i].tags.len() <= usize::MAX by {
                        assert(recipes.deep_view()[i].ingredients.len()
                            == recipes[i].ingredients.len());
                        assert(recipes.deep_view()[i].tags.len() == recipes[i].tags.len());
                    }
                }
            }
        }
        let mut db = existing;
        let mut held = init_from;
        let mut step = init(held.is_some(), db_uri);
        loop
            invariant
                db matches Some(store) ==> store@.well_formed(),
                seed matches Some(recipes) ==> countable(recipes),
                start_on_track(before, seed, db_uri@, step@, store_view(db), seed_view(held)),
            decreases requests_left(step@), recipes_left(step@), statements_left(step@),
        {
            match step {
                InitStep::Ready(Ok(_)) => {
                    match db {
                        Some(store) => {
                            return Ok(store);
                        },
                        None => {
                            return Err(unexpected());
                        },
                    }
                },
                InitStep::Ready(Err(error)) => {
                    return Err(error);
                },
                InitStep::Do(state, setup) => {
                    let ghost waiting = state@;
                    let ghost asked = setup@;
                    let ghost store_before = store_view(db);
                    let event = match setup {
                        Setup::ProbeStore => Event::Exists(db.is_some()),
                        Setup::CreateDirectory(_) => Event::Completed,
                        Setup::CreateStore => {
                            db = Some(Store::new());
                            Event::Completed
                        },
                        Setup::Connect => Event::Completed,
                        Setup::Migrate => Event::Completed,
                        Setup::ReadSeed => match held {
                            Some(recipes) => {
                                held = None;
                                Event::Seed(recipes)
                            },
                            None => Event::SeedUnreadable("no seed was given".to_owned()),
                        },
                        Setup::Run(statement) => match db {
                            Some(mut store) => {
                                let outcome = store.execute(statement);
                                proof {
                                    if let InitView::Importing(importer) = waiting {
                                        if let SetupView::Run(sent) = asked {
                                            lemma_statement_keeps_track(
                                                opened(before, db_uri@)->Ok_0,
                                                seed->0,
                                                importer,
                                                sent,
                                                store_before->0,
                                                outcome_view(outcome),
                                            );
                                        }
                                    }
                                }
                                db = Some(store);
                                match outcome {
                                    Ok(_) => Event::Completed,
                                    Err(reason) => Event::Failed(reason),
                                }
                            },
                            None => Event::Failed("the store is not open".to_owned()),
                        },
                    };
                    step = state.resume(event);
                },
            }
        }
    }
}

} // verus!
