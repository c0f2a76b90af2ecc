//! The requests that the service answers, and how each is decided from
//! what the store answers.

use crate::database::{
    fetch_recipe, fetch_recipe_id, is_normal_match, recipe_in, FetchRecipe, FetchRecipeView,
    FetchStep, FetchStepView,
};
use crate::recipe::{Recipe, RecipeView};
use crate::store::{Answer, AnswerView, ChildRowView, Query, Store, Tables};
use crate::templates::{page_of, IndexTemplate, IndexTemplateView};
use crate::text::{decimal_seq, parse_decimal, parse_i64, split, split_seq, to_decimal};
use vstd::prelude::*;

verus! {

/// The description of the API.
#[derive(Debug, Clone, Copy)]
pub struct ApiDoc;

/// A route of the API.
#[derive(Debug, Clone, Copy, PartialEq, Eq, Structural)]
pub enum Route {
    RecipeById,
    RecipeWithTags,
    RecipeRandom,
}

/// The status of a response.
#[derive(Debug, Clone, Copy, PartialEq, Eq, Structural)]
pub enum Status {
    Success,
    BadRequest,
    NotFound,
}

impl Status {
    /// The number of the status.
    pub open spec fn number(self) -> u16 {
        match self {
            Status::Success => 200,
            Status::BadRequest => 400,
            Status::NotFound => 404,
        }
    }

    /// Gives the number of the status.
    pub fn code(&self) -> (code: u16)
        ensures
            code == self.number(),
    {
        match self {
            Status::Success => 200,
            Status::BadRequest => 400,
            Status::NotFound => 404,
        }
    }
}

impl Route {
    /// The path of the route below the root of the API.
    pub open spec fn path_of(self) -> Seq<char> {
        match self {
            Route::RecipeById => "/recipe/{recipe_id}"@,
            Route::RecipeWithTags => "/recipe/with-tags"@,
            Route::RecipeRandom => "/recipe/random"@,
        }
    }

    /// Gives the path of the route below the root of the API.
    pub fn path(&self) -> (path: &'static str)
        ensures
            path@ == self.path_of(),
    {
        match self {
            Route::RecipeById => "/recipe/{recipe_id}",
            Route::RecipeWithTags => "/recipe/with-tags",
            Route::RecipeRandom => "/recipe/random",
        }
    }
}

impl ApiDoc {
    /// The name under which the API is described.
    pub fn name() -> (name: &'static str)
        ensures
            name@ == "recipe-server"@,
    {
        "recipe-server"
    }

    /// What the description says of the API.
    pub fn description() -> (text: &'static str)
        ensures
            text@ == "A simple recipe server and API"@,
    {
        "A simple recipe server and API"
    }

    /// Whether the description of `route` names `status`: every route can
    /// answer with a recipe or with nothing found, and the one that takes an
    /// id can also refuse the id.
    pub open spec fn documents(route: Route, status: Status) -> bool {
        status == Status::Success || status == Status::NotFound || (route == Route::RecipeById
            && status == Status::BadRequest)
    }

    /// Tells whether the description of `route` names `status`.
    pub fn describes(route: Route, status: Status) -> (yes: bool)
        ensures
            yes == Self::documents(route, status),
    {
        match status {
            Status::Success => true,
            Status::NotFound => true,
            Status::BadRequest => match route {
                Route::RecipeById => true,
                _ => false,
            },
        }
    }
}

/// The routes of the API, in the order in which they are registered.
pub fn router() -> (routes: Vec<Route>)
    ensures
        routes@ == seq![Route::RecipeById, Route::RecipeWithTags, Route::RecipeRandom],
{
    let mut routes: Vec<Route> = Vec::new();
    routes.push(Route::RecipeById);
    routes.push(Route::RecipeWithTags);
    routes.push(Route::RecipeRandom);
    assert(routes@ =~= seq![Route::RecipeById, Route::RecipeWithTags, Route::RecipeRandom]);
    routes
}

/// The response to a request.
#[derive(Debug, PartialEq, Eq)]
pub enum Reply {
    /// The recipe, to be sent as JSON with status 200.
    Json(Recipe),
    /// The page of the recipe, to be sent as HTML with status 200.
    Page(IndexTemplate),
    /// A redirect to this location.
    Redirect(String),
    /// Nothing but this status.
    Failure(Status),
}

/// A response as plain values.
pub enum ReplyView {
    Json(RecipeView),
    Page(IndexTemplateView),
    Redirect(Seq<char>),
    Failure(Status),
}

impl View for Reply {
    type V = ReplyView;

    open spec fn view(&self) -> ReplyView {
        match self {
            Reply::Json(recipe) => ReplyView::Json(recipe@),
            Reply::Page(page) => ReplyView::Page(page@),
            Reply::Redirect(location) => ReplyView::Redirect(location@),
            Reply::Failure(status) => ReplyView::Failure(*status),
        }
    }
}

/// A request between two questions to the store.
#[derive(Debug, PartialEq, Eq)]
pub enum Handler {
    /// A recipe is being fetched, for its page or for the API.
    Fetching { fetch: FetchRecipe, page: bool },
    /// A random id was asked for, to redirect to or to fetch.
    AwaitRandom { redirect: bool },
    /// The rows of the tags were asked for, to find the recipe that carries
    /// these tags.
    AwaitTagRows { tags: Vec<String>, redirect: bool },
}

/// A request between two questions, as plain values.
pub enum HandlerView {
    Fetching { fetch: FetchRecipeView, page: bool },
    AwaitRandom { redirect: bool },
    AwaitTagRows { tags: Seq<Seq<char>>, redirect: bool },
}

impl View for Handler {
    type V = HandlerView;

    open spec fn view(&self) -> HandlerView {
        match self {
            Handler::Fetching { fetch, page } => HandlerView::Fetching {
                fetch: fetch@,
                page: *page,
            },
            Handler::AwaitRandom { redirect } => HandlerView::AwaitRandom { redirect: *redirect },
            Handler::AwaitTagRows { tags, redirect } => HandlerView::AwaitTagRows {
                tags: tags.deep_view(),
                redirect: *redirect,
            },
        }
    }
}

/// What a request needs next.
#[derive(Debug, PartialEq, Eq)]
pub enum HandlerStep {
    /// Put the question to the store and hand the answer to the request.
    Ask(Handler, Query),
    /// The request is answered.
    Reply(Reply),
}

/// A step of a request as plain values.
pub enum HandlerStepView {
    Ask(HandlerView, Query),
    Reply(ReplyView),
}

impl View for HandlerStep {
    type V = HandlerStepView;

    open spec fn view(&self) -> HandlerStepView {
        match self {
            HandlerStep::Ask(handler, query) => HandlerStepView::Ask(handler@, *query),
            HandlerStep::Reply(reply) => HandlerStepView::Reply(reply@),
        }
    }
}

/// The id that `text` gives: a decimal number that is not negative and fits
/// the ids of the store.
pub open spec fn recipe_id_of(text: Seq<char>) -> Option<i64> {
    match parse_decimal(text) {
        Some(v) => if 0 <= v <= i64::MAX {
            Some(v as i64)
        } else {
            None
        },
        None => None,
    }
}

/// The location of the page of the recipe `id`.
pub open spec fn page_location(id: i64) -> Seq<char> {
    "/?id="@ + decimal_seq(id as int)
}

/// The recipe that a lookup by tags gives among `rows`, all tags taken in
/// their compared form.
pub open spec fn tag_match(rows: Seq<ChildRowView>, wanted: Seq<Seq<char>>) -> Option<i64> {
    choose|found: Option<i64>| is_normal_match(rows, wanted, found)
}

/// A lookup by tags has one result only.
pub proof fn lemma_tag_match_is_unique(
    rows: Seq<ChildRowView>,
    wanted: Seq<Seq<char>>,
    found: Option<i64>,
)
    requires
        is_normal_match(rows, wanted, found),
    ensures
        tag_match(rows, wanted) == found,
{
    let other = tag_match(rows, wanted);
    assert(is_normal_match(rows, wanted, other));
    match (found, other) {
        (Some(a), Some(b)) => {
            if a < b {
            } else if b < a {
            }
        },
        _ => {},
    }
}

impl HandlerView {
    /// The fetch of the recipe `id` begins.
    pub open spec fn fetching(id: i64, page: bool) -> HandlerStepView {
        Self::fetched(FetchRecipeView::begin(id), page)
    }

    /// The rows of the tags are asked for, to find the recipe that carries
    /// `tags`.
    pub open spec fn looking_up(tags: Seq<Seq<char>>, redirect: bool) -> HandlerStepView {
        HandlerStepView::Ask(HandlerView::AwaitTagRows { tags, redirect }, Query::TagRows)
    }

    /// A random id is asked for.
    pub open spec fn picking(redirect: bool) -> HandlerStepView {
        HandlerStepView::Ask(HandlerView::AwaitRandom { redirect }, Query::RandomId)
    }

    /// What a step of the fetch means for the request: the fetch goes on,
    /// or the recipe is sent, as its page or as JSON, or nothing was found.
    pub open spec fn fetched(step: FetchStepView, page: bool) -> HandlerStepView {
        match step {
            FetchStepView::Ask(fetch, query) => HandlerStepView::Ask(
                HandlerView::Fetching { fetch, page },
                query,
            ),
            FetchStepView::Done(Ok(recipe)) => HandlerStepView::Reply(
                if page {
                    ReplyView::Page(page_of(recipe))
                } else {
                    ReplyView::Json(recipe)
                },
            ),
            FetchStepView::Done(Err(_)) => HandlerStepView::Reply(
                ReplyView::Failure(Status::NotFound),
            ),
        }
    }

    /// What follows once the id of the recipe is known: the page redirects
    /// to it, the API fetches it.
    pub open spec fn found(id: i64, redirect: bool) -> HandlerStepView {
        if redirect {
            HandlerStepView::Reply(ReplyView::Redirect(page_location(id)))
        } else {
            Self::fetching(id, false)
        }
    }

    /// Nothing was found: the request ends with status 404.
    pub open spec fn missed() -> HandlerStepView {
        HandlerStepView::Reply(ReplyView::Failure(Status::NotFound))
    }

    /// What follows `answer`. A fetch goes on as fetches do. A random id
    /// and an id found by tags are redirected to or fetched; a store
    /// without recipes, tags that no recipe carries and a failure of the
    /// store end the request with status 404.
    pub open spec fn resume(self, answer: AnswerView) -> HandlerStepView {
        match self {
            HandlerView::Fetching { fetch, page } => Self::fetched(fetch.resume(answer), page),
            HandlerView::AwaitRandom { redirect } => match answer {
                AnswerView::Id(Some(id)) => Self::found(id, redirect),
                _ => Self::missed(),
            },
            HandlerView::AwaitTagRows { tags, redirect } => match answer {
                AnswerView::TagRows(rows) => match tag_match(rows, tags) {
                    Some(id) => Self::found(id, redirect),
                    None => Self::missed(),
                },
                _ => Self::missed(),
            },
        }
    }
}

/// The status that a response carries; a redirect carries none of them.
pub open spec fn status_of(reply: ReplyView) -> Option<Status> {
    match reply {
        ReplyView::Json(_) | ReplyView::Page(_) => Some(Status::Success),
        ReplyView::Redirect(_) => None,
        ReplyView::Failure(status) => Some(status),
    }
}

impl HandlerView {
    /// Whether the request came by a route of the API: it ends in a recipe
    /// as JSON, never in a page or a redirect.
    pub open spec fn of_api(self) -> bool {
        match self {
            HandlerView::Fetching { page, .. } => !page,
            HandlerView::AwaitRandom { redirect } => !redirect,
            HandlerView::AwaitTagRows { redirect, .. } => !redirect,
        }
    }
}

/// A step of the API is answered only with what the description names.
pub open spec fn described(step: HandlerStepView, route: Route) -> bool {
    match step {
        HandlerStepView::Ask(next, _) => next.of_api(),
        HandlerStepView::Reply(reply) => status_of(reply) matches Some(status)
            && ApiDoc::documents(route, status),
    }
}

/// Whatever the store answers, a request of the API goes on as one, and the
/// response it ends in carries a status that the description of every route
/// names.
pub proof fn lemma_api_replies_are_described(
    handler: HandlerView,
    answer: AnswerView,
    route: Route,
)
    requires
        handler.of_api(),
    ensures
        described(handler.resume(answer), route),
{
}

/// The first step of a request for a recipe by its id is one that the
/// description of that route names.
pub proof fn lemma_bad_id_is_described(recipe_id: Seq<char>)
    ensures
        described(
            match recipe_id_of(recipe_id) {
                Some(id) => HandlerView::fetching(id, false),
                None => HandlerStepView::Reply(ReplyView::Failure(Status::BadRequest)),
            },
            Route::RecipeById,
        ),
{
}

fn fetched(step: FetchStep, page: bool) -> (next: HandlerStep)
    ensures
        next@ == HandlerView::fetched(step@, page),
{
    match step {
        FetchStep::Ask(fetch, query) => HandlerStep::Ask(Handler::Fetching { fetch, page }, query),
        FetchStep::Done(Ok(recipe)) => {
            if page {
                HandlerStep::Reply(Reply::Page(IndexTemplate::recipe(recipe)))
            } else {
                HandlerStep::Reply(Reply::Json(recipe))
            }
        },
        FetchStep::Done(Err(_)) => HandlerStep::Reply(Reply::Failure(Status::NotFound)),
    }
}

fn found(id: i64, redirect: bool) -> (next: HandlerStep)
    ensures
        next@ == HandlerView::found(id, redirect),
{
    if redirect {
        let mut location = "/?id=".to_owned();
        let number = to_decimal(id);
        location.append(number.as_str());
        HandlerStep::Reply(Reply::Redirect(location))
    } else {
        fetched(fetch_recipe(id), false)
    }
}

fn missed() -> (next: HandlerStep)
    ensures
        next@ == HandlerView::missed(),
{
    HandlerStep::Reply(Reply::Failure(Status::NotFound))
}

/// Answers a request for the recipe whose id is written in `recipe_id`:
/// what is no id is refused with status 400, an id is fetched.
pub fn get_recipe_by_id(recipe_id: &str) -> (step: HandlerStep)
    ensures
        step@ == match recipe_id_of(recipe_id@) {
            Some(id) => HandlerView::fetching(id, false),
            None => HandlerStepView::Reply(ReplyView::Failure(Status::BadRequest)),
        },
{
    match parse_i64(recipe_id) {
        Some(id) => {
            if id >= 0 {
                fetched(fetch_recipe(id), false)
            } else {
                HandlerStep::Reply(Reply::Failure(Status::BadRequest))
            }
        },
        None => HandlerStep::Reply(Reply::Failure(Status::BadRequest)),
    }
}

/// Answers a request for a recipe that carries every one of `tags`: the
/// rows of the tags are asked for.
pub fn get_recipe_by_tag(tags: Vec<String>) -> (step: HandlerStep)
    ensures
        step@ == HandlerView::looking_up(tags.deep_view(), false),
{
    HandlerStep::Ask(Handler::AwaitTagRows { tags, redirect: false }, Query::TagRows)
}

/// Answers a request for a random recipe: a random id is asked for.
pub fn get_recipe_random() -> (step: HandlerStep)
    ensures
        step@ == HandlerView::picking(false),
{
    HandlerStep::Ask(Handler::AwaitRandom { redirect: false }, Query::RandomId)
}

/// Answers a request for the recipe page. With an id the page of that
/// recipe is fetched. With tags, written with commas between them, the
/// recipe that carries them is looked for and the page redirects to it. With
/// neither, and empty tags are none, the page redirects to a random recipe.
pub fn web_response(id: Option<i64>, tags: Option<String>) -> (step: HandlerStep)
    ensures
        step@ == match (id, tags) {
            (Some(id), _) => HandlerView::fetching(id, true),
            (None, Some(tags)) if tags@.len() > 0 => HandlerView::looking_up(
                split_seq(tags@, ','),
                true,
            ),
            _ => HandlerView::picking(true),
        },
{
    if let Some(id) = id {
        return fetched(fetch_recipe(id), true);
    }
    if let Some(tags) = tags {
        if !tags.as_str().is_empty() {
            let wanted = split(tags.as_str(), ',');
            return HandlerStep::Ask(
                Handler::AwaitTagRows { tags: wanted, redirect: true },
                Query::TagRows,
            );
        }
    }
    HandlerStep::Ask(Handler::AwaitRandom { redirect: true }, Query::RandomId)
}

impl Handler {
    /// Takes the answer to the question that was asked last and says what
    /// follows.
    pub fn resume(self, answer: Answer) -> (step: HandlerStep)
        ensures
            step@ == self@.resume(answer@),
    {
        match self {
            Handler::Fetching { fetch, page } => fetched(fetch.resume(answer), page),
            Handler::AwaitRandom { redirect } => match answer {
                Answer::Id(Some(id)) => found(id, redirect),
                _ => missed(),
            },
            Handler::AwaitTagRows { tags, redirect } => {
                let ghost asked = answer@;
                match fetch_recipe_id(answer, &tags) {
                    Ok(Some(id)) => {
                        proof {
                            if let AnswerView::TagRows(rows) = asked {
                                lemma_tag_match_is_unique(rows, tags.deep_view(), Some(id));
                            }
                        }
                        found(id, redirect)
                    },
                    Ok(None) => {
                        proof {
                            if let AnswerView::TagRows(rows) = asked {
                                lemma_tag_match_is_unique(rows, tags.deep_view(), None);
                            }
                        }
                        missed()
                    },
                    Err(_) => missed(),
                }
            },
        }
    }
}

/// The response to a request for the recipe `id`: the recipe, as its page or
/// as JSON, or nothing found.
pub open spec fn recipe_reply(rows: Tables, id: i64, page: bool) -> ReplyView {
    match recipe_in(rows, id) {
        Ok(recipe) => if page {
            ReplyView::Page(page_of(recipe))
        } else {
            ReplyView::Json(recipe)
        },
        Err(_) => ReplyView::Failure(Status::NotFound),
    }
}

/// The recipe that a random choice falls on, if there is a recipe at all:
/// `pick` decides which.
pub open spec fn picked(rows: Tables, pick: u64) -> Option<i64> {
    if rows.recipes.len() == 0 {
        None
    } else {
        Some(rows.recipes[pick as int % rows.recipes.len() as int].id)
    }
}

/// The response to a request for the page of a random recipe.
pub open spec fn random_page(rows: Tables, pick: u64) -> ReplyView {
    match picked(rows, pick) {
        Some(id) => ReplyView::Redirect(page_location(id)),
        None => ReplyView::Failure(Status::NotFound),
    }
}

fn conclude(step: HandlerStep) -> (reply: Reply)
    requires
        step@ is Reply,
    ensures
        step@ == HandlerStepView::Reply(reply@),
{
    match step {
        HandlerStep::Reply(reply) => reply,
        HandlerStep::Ask(_, _) => Reply::Failure(Status::NotFound),
    }
}

impl Store {
    /// Puts the question of `step` to the store, if it asks one, and gives
    /// the step that follows.
    fn advance(&self, step: HandlerStep, pick: u64) -> (next: HandlerStep)
        requires
            self@.well_formed(),
        ensures
            next@ == match step@ {
                HandlerStepView::Ask(handler, query) => handler.resume(self@.answer(query, pick)),
                HandlerStepView::Reply(reply) => HandlerStepView::Reply(reply),
            },
    {
        match step {
            HandlerStep::Ask(handler, query) => {
                let answer = self.answer(&query, pick);
                handler.resume(answer)
            },
            HandlerStep::Reply(reply) => HandlerStep::Reply(reply),
        }
    }

    /// Carries a fetch that is about to begin, or a request that is answered
    /// already, to its response.
    fn finish(&self, step: HandlerStep, Ghost(id): Ghost<i64>, Ghost(page): Ghost<bool>) -> (reply:
        Reply)
        requires
            self@.well_formed(),
            step@ is Reply || step@ == HandlerView::fetching(id, page),
        ensures
            reply@ == match step@ {
                HandlerStepView::Reply(given) => given,
                HandlerStepView::Ask(_, _) => recipe_reply(self@.committed(), id, page),
            },
    {
        let step = self.advance(step, 0);
        let step = self.advance(step, 0);
        let step = self.advance(step, 0);
        conclude(step)
    }

    /// Answers from this store a request for the recipe whose id is written
    /// in `recipe_id`: status 400 for what is no id, status 404 for an id
    /// that no recipe has, else the recipe.
    pub fn get_recipe_by_id(&self, recipe_id: &str) -> (reply: Reply)
        requires
            self@.well_formed(),
        ensures
            reply@ == match recipe_id_of(recipe_id@) {
                Some(id) => recipe_reply(self@.committed(), id, false),
                None => ReplyView::Failure(Status::BadRequest),
            },
    {
        let step = get_recipe_by_id(recipe_id);
        let ghost id = match recipe_id_of(recipe_id@) {
            Some(id) => id,
            None => 0,
        };
        self.finish(step, Ghost(id), Ghost(false))
    }

    /// Answers from this store a request for a recipe that carries every
    /// one of `tags`: status 404 where none does, else the recipe with the
    /// smallest id that does.
    pub fn get_recipe_by_tag(&self, tags: Vec<String>) -> (reply: Reply)
        requires
            self@.well_formed(),
        ensures
            reply@ == match tag_match(self@.committed().tags, tags.deep_view()) {
                Some(id) => recipe_reply(self@.committed(), id, false),
                None => ReplyView::Failure(Status::NotFound),
            },
    {
        let ghost id = match tag_match(self@.committed().tags, tags.deep_view()) {
            Some(id) => id,
            None => 0,
        };
        let step = self.advance(get_recipe_by_tag(tags), 0);
        self.finish(step, Ghost(id), Ghost(false))
    }

    /// Answers from this store a request for a random recipe: status 404
    /// from a store without recipes, else the recipe on which `pick` falls.
    pub fn get_recipe_random(&self, pick: u64) -> (reply: Reply)
        requires
            self@.well_formed(),
        ensures
            reply@ == match picked(self@.committed(), pick) {
                Some(id) => recipe_reply(self@.committed(), id, false),
                None => ReplyView::Failure(Status::NotFound),
            },
    {
        let ghost id = match picked(self@.committed(), pick) {
            Some(id) => id,
            None => 0,
        };
        let step = self.advance(get_recipe_random(), pick);
        self.finish(step, Ghost(id), Ghost(false))
    }

    /// Answers from this store a request for the recipe page. With an id:
    /// the page of that recipe. With tags: a redirect to the page of the
    /// recipe that carries them. With neither: a redirect to the page of
    /// the recipe on which `pick` falls. Status 404 where there is no such
    /// recipe.
    pub fn web_response(&self, id: Option<i64>, tags: Option<String>, pick: u64) -> (reply: Reply)
        requires
            self@.well_formed(),
        ensures
            reply@ == match (id, tags) {
                (Some(id), _) => recipe_reply(self@.committed(), id, true),
                (None, Some(tags)) if tags@.len() > 0 => match tag_match(
                    self@.committed().tags,
                    split_seq(tags@, ','),
                ) {
                    Some(id) => ReplyView::Redirect(page_location(id)),
                    None => ReplyView::Failure(Status::NotFound),
                },
                _ => random_page(self@.committed(), pick),
            },
    {
        let step = web_response(id, tags);
        let step = self.advance(step, pick);
        let step = self.advance(step, pick);
        let step = self.advance(step, pick);
        conclude(step)
    }
}

} // verus!
