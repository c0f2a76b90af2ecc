use recipe_server::api::{
    get_recipe_by_id, get_recipe_by_tag, get_recipe_random, router, web_response, ApiDoc, Handler,
    HandlerStep, Reply, Route, Status,
};
use recipe_server::database::FetchRecipe;
use recipe_server::import::import_recipes;
use recipe_server::recipe::Recipe;
use recipe_server::server::bind_addr;
use recipe_server::store::{Answer, ChildRow, Query, Store};
use recipe_server::templates::IndexTemplate;

fn lines(items: &[&str]) -> Vec<String> {
    items.iter().map(|s| s.to_string()).collect()
}

fn tagged(id: u32, tags: &[&str]) -> Recipe {
    Recipe {
        id,
        name: "Recipe".to_string(),
        ingredients: lines(&["salt"]),
        preparation: lines(&["Cook."]),
        source: "book".to_string(),
        tags: lines(tags),
    }
}

fn seeded() -> Store {
    let mut store = Store::new();
    let seed = vec![tagged(1, &["apples", "dessert"]), tagged(2, &["soup"])];
    assert_eq!(import_recipes(&mut store, seed), Ok(()));
    store
}

/// Answers every question of a request from the store.
fn respond(store: &Store, mut step: HandlerStep, pick: u64) -> Reply {
    loop {
        match step {
            HandlerStep::Ask(handler, query) => step = handler.resume(store.answer(&query, pick)),
            HandlerStep::Reply(reply) => return reply,
        }
    }
}

fn failure(status: Status) -> HandlerStep {
    HandlerStep::Reply(Reply::Failure(status))
}

#[test]
fn statuses_have_their_numbers() {
    assert_eq!(Status::Success.code(), 200);
    assert_eq!(Status::BadRequest.code(), 400);
    assert_eq!(Status::NotFound.code(), 404);
}

#[test]
fn the_api_has_three_routes() {
    assert_eq!(router(), vec![Route::RecipeById, Route::RecipeWithTags, Route::RecipeRandom]);
    assert_eq!(Route::RecipeById.path(), "/recipe/{recipe_id}");
    assert_eq!(Route::RecipeWithTags.path(), "/recipe/with-tags");
    assert_eq!(Route::RecipeRandom.path(), "/recipe/random");
}

#[test]
fn the_api_is_described() {
    assert_eq!(ApiDoc::name(), "recipe-server");
    assert_eq!(ApiDoc::description(), "A simple recipe server and API");
    for route in router() {
        assert!(ApiDoc::describes(route, Status::Success));
        assert!(ApiDoc::describes(route, Status::NotFound));
    }
    assert!(ApiDoc::describes(Route::RecipeById, Status::BadRequest));
    assert!(!ApiDoc::describes(Route::RecipeWithTags, Status::BadRequest));
    assert!(!ApiDoc::describes(Route::RecipeRandom, Status::BadRequest));
}

#[test]
fn an_id_that_is_no_number_is_a_bad_request() {
    assert_eq!(get_recipe_by_id("abc"), failure(Status::BadRequest));
    assert_eq!(get_recipe_by_id(""), failure(Status::BadRequest));
    assert_eq!(get_recipe_by_id("1.5"), failure(Status::BadRequest));
    assert_eq!(get_recipe_by_id(" 1"), failure(Status::BadRequest));
    assert_eq!(get_recipe_by_id("9223372036854775808"), failure(Status::BadRequest));
    assert_eq!(respond(&seeded(), get_recipe_by_id("abc"), 0), Reply::Failure(Status::BadRequest));
}

#[test]
fn a_negative_id_is_a_bad_request() {
    assert_eq!(get_recipe_by_id("-1"), failure(Status::BadRequest));
    assert_eq!(get_recipe_by_id("-9223372036854775808"), failure(Status::BadRequest));
}

#[test]
fn an_id_is_fetched() {
    let fetching = |id| {
        HandlerStep::Ask(
            Handler::Fetching { fetch: FetchRecipe::AwaitRow { id }, page: false },
            Query::Recipe(id),
        )
    };
    assert_eq!(get_recipe_by_id("42"), fetching(42));
    assert_eq!(get_recipe_by_id("+42"), fetching(42));
    assert_eq!(get_recipe_by_id("0"), fetching(0));
    assert_eq!(get_recipe_by_id("-0"), fetching(0));
    assert_eq!(get_recipe_by_id("9223372036854775807"), fetching(i64::MAX));
}

#[test]
fn a_recipe_that_is_there_is_sent() {
    let store = seeded();
    assert_eq!(
        respond(&store, get_recipe_by_id("1"), 0),
        Reply::Json(tagged(1, &["apples", "dessert"]))
    );
    assert_eq!(respond(&store, get_recipe_by_id("2"), 0), Reply::Json(tagged(2, &["soup"])));
}

#[test]
fn a_recipe_that_is_not_there_is_not_found() {
    assert_eq!(respond(&seeded(), get_recipe_by_id("999"), 0), Reply::Failure(Status::NotFound));
    assert_eq!(
        respond(&Store::new(), get_recipe_by_id("1"), 0),
        Reply::Failure(Status::NotFound)
    );
}

#[test]
fn a_fetch_that_fails_is_not_found() {
    let step = get_recipe_by_id("1");
    match step {
        HandlerStep::Ask(handler, _) => assert_eq!(
            handler.resume(Answer::Failed("disk".to_string())),
            failure(Status::NotFound)
        ),
        other => panic!("{:?}", other),
    }
}

#[test]
fn a_recipe_is_found_by_its_tags() {
    let store = seeded();
    assert_eq!(
        respond(&store, get_recipe_by_tag(lines(&["apples"])), 0),
        Reply::Json(tagged(1, &["apples", "dessert"]))
    );
    assert_eq!(
        respond(&store, get_recipe_by_tag(lines(&[" SOUP "])), 0),
        Reply::Json(tagged(2, &["soup"]))
    );
}

#[test]
fn tags_that_no_recipe_carries_are_not_found() {
    let store = seeded();
    assert_eq!(
        respond(&store, get_recipe_by_tag(lines(&["bread"])), 0),
        Reply::Failure(Status::NotFound)
    );
    assert_eq!(
        respond(&store, get_recipe_by_tag(lines(&["soup", "apples"])), 0),
        Reply::Failure(Status::NotFound)
    );
    assert_eq!(respond(&store, get_recipe_by_tag(vec![]), 0), Reply::Failure(Status::NotFound));
}

#[test]
fn a_lookup_by_tags_asks_for_the_rows_of_the_tags() {
    assert_eq!(
        get_recipe_by_tag(lines(&["a", "b"])),
        HandlerStep::Ask(
            Handler::AwaitTagRows { tags: lines(&["a", "b"]), redirect: false },
            Query::TagRows
        )
    );
    let handler = Handler::AwaitTagRows { tags: lines(&["a"]), redirect: false };
    assert_eq!(handler.resume(Answer::Failed("disk".to_string())), failure(Status::NotFound));
    let handler = Handler::AwaitTagRows { tags: lines(&["a"]), redirect: false };
    let rows = vec![ChildRow { recipe_id: 7, value: "A".to_string() }];
    assert_eq!(
        handler.resume(Answer::TagRows(rows)),
        HandlerStep::Ask(
            Handler::Fetching { fetch: FetchRecipe::AwaitRow { id: 7 }, page: false },
            Query::Recipe(7)
        )
    );
}

#[test]
fn a_random_recipe_is_sent() {
    let store = seeded();
    assert_eq!(
        get_recipe_random(),
        HandlerStep::Ask(Handler::AwaitRandom { redirect: false }, Query::RandomId)
    );
    assert_eq!(
        respond(&store, get_recipe_random(), 0),
        Reply::Json(tagged(1, &["apples", "dessert"]))
    );
    assert_eq!(respond(&store, get_recipe_random(), 1), Reply::Json(tagged(2, &["soup"])));
}

#[test]
fn a_random_recipe_of_an_empty_store_is_not_found() {
    assert_eq!(respond(&Store::new(), get_recipe_random(), 3), Reply::Failure(Status::NotFound));
    let handler = Handler::AwaitRandom { redirect: false };
    assert_eq!(handler.resume(Answer::Failed("disk".to_string())), failure(Status::NotFound));
}

#[test]
fn the_page_of_an_id_is_rendered() {
    let store = seeded();
    assert_eq!(
        web_response(Some(2), None),
        HandlerStep::Ask(
            Handler::Fetching { fetch: FetchRecipe::AwaitRow { id: 2 }, page: true },
            Query::Recipe(2)
        )
    );
    assert_eq!(
        respond(&store, web_response(Some(2), Some("apples".to_string())), 0),
        Reply::Page(IndexTemplate { recipe: tagged(2, &["soup"]), stylesheet: "/recipe.css" })
    );
    assert_eq!(respond(&store, web_response(Some(999), None), 0), Reply::Failure(Status::NotFound));
}

#[test]
fn the_page_redirects_to_the_recipe_of_the_tags() {
    let store = seeded();
    assert_eq!(
        web_response(None, Some("dessert, Apples".to_string())),
        HandlerStep::Ask(
            Handler::AwaitTagRows { tags: lines(&["dessert", " Apples"]), redirect: true },
            Query::TagRows
        )
    );
    assert_eq!(
        respond(&store, web_response(None, Some("dessert, Apples".to_string())), 1),
        Reply::Redirect("/?id=1".to_string())
    );
    assert_eq!(
        respond(&store, web_response(None, Some("soup".to_string())), 0),
        Reply::Redirect("/?id=2".to_string())
    );
}

#[test]
fn the_page_without_id_and_tags_redirects_to_a_random_recipe() {
    let store = seeded();
    assert_eq!(
        web_response(None, None),
        HandlerStep::Ask(Handler::AwaitRandom { redirect: true }, Query::RandomId)
    );
    assert_eq!(
        web_response(None, Some(String::new())),
        HandlerStep::Ask(Handler::AwaitRandom { redirect: true }, Query::RandomId)
    );
    assert_eq!(respond(&store, web_response(None, None), 1), Reply::Redirect("/?id=2".to_string()));
    assert_eq!(respond(&store, web_response(None, None), 0), Reply::Redirect("/?id=1".to_string()));
}

#[test]
fn the_page_of_tags_that_no_recipe_carries_is_not_found() {
    let store = seeded();
    assert_eq!(
        respond(&store, web_response(None, Some("bread".to_string())), 0),
        Reply::Failure(Status::NotFound)
    );
    assert_eq!(
        respond(&store, web_response(None, Some("soup,apples".to_string())), 0),
        Reply::Failure(Status::NotFound)
    );
    let handler = Handler::AwaitTagRows { tags: lines(&["a"]), redirect: true };
    assert_eq!(handler.resume(Answer::TagRows(vec![])), failure(Status::NotFound));
    let handler = Handler::AwaitTagRows { tags: lines(&["a"]), redirect: true };
    assert_eq!(handler.resume(Answer::Failed("disk".to_string())), failure(Status::NotFound));
}

#[test]
fn the_page_of_an_empty_store_is_not_found() {
    assert_eq!(respond(&Store::new(), web_response(None, None), 0), Reply::Failure(Status::NotFound));
    assert_eq!(Store::new().web_response(None, None, 0), Reply::Failure(Status::NotFound));
    assert_eq!(
        respond(&Store::new(), web_response(None, Some("soup".to_string())), 0),
        Reply::Failure(Status::NotFound)
    );
    let handler = Handler::AwaitRandom { redirect: true };
    assert_eq!(handler.resume(Answer::Id(None)), failure(Status::NotFound));
    let handler = Handler::AwaitRandom { redirect: true };
    assert_eq!(handler.resume(Answer::Failed("disk".to_string())), failure(Status::NotFound));
}

#[test]
fn the_page_of_a_recipe_links_the_stylesheet() {
    let page = IndexTemplate::recipe(tagged(1, &[]));
    assert_eq!(page.stylesheet, "/recipe.css");
    assert_eq!(page.recipe, tagged(1, &[]));
}

#[test]
fn the_service_listens_on_the_given_address_or_the_default() {
    assert_eq!(bind_addr(Some("0.0.0.0:80".to_string())), "0.0.0.0:80");
    assert_eq!(bind_addr(None), "127.0.0.1:8888");
}

#[test]
fn the_store_answers_requests_by_id() {
    let store = seeded();
    assert_eq!(store.get_recipe_by_id("2"), Reply::Json(tagged(2, &["soup"])));
    assert_eq!(store.get_recipe_by_id("999"), Reply::Failure(Status::NotFound));
    assert_eq!(store.get_recipe_by_id("abc"), Reply::Failure(Status::BadRequest));
    assert_eq!(store.get_recipe_by_id("-2"), Reply::Failure(Status::BadRequest));
    assert_eq!(Store::new().get_recipe_by_id("1"), Reply::Failure(Status::NotFound));
}

#[test]
fn the_store_answers_requests_by_tags() {
    let store = seeded();
    assert_eq!(
        store.get_recipe_by_tag(lines(&["Dessert", "apples "])),
        Reply::Json(tagged(1, &["apples", "dessert"]))
    );
    assert_eq!(store.get_recipe_by_tag(lines(&["bread"])), Reply::Failure(Status::NotFound));
    assert_eq!(store.get_recipe_by_tag(vec![]), Reply::Failure(Status::NotFound));
}

#[test]
fn the_store_answers_requests_for_a_random_recipe() {
    let store = seeded();
    assert_eq!(store.get_recipe_random(0), Reply::Json(tagged(1, &["apples", "dessert"])));
    assert_eq!(store.get_recipe_random(5), Reply::Json(tagged(2, &["soup"])));
    assert_eq!(Store::new().get_recipe_random(5), Reply::Failure(Status::NotFound));
}

#[test]
fn the_store_answers_requests_for_the_page() {
    let store = seeded();
    assert_eq!(
        store.web_response(Some(1), None, 0),
        Reply::Page(IndexTemplate {
            recipe: tagged(1, &["apples", "dessert"]),
            stylesheet: "/recipe.css"
        })
    );
    assert_eq!(store.web_response(Some(7), None, 0), Reply::Failure(Status::NotFound));
    assert_eq!(
        store.web_response(None, Some("soup".to_string()), 0),
        Reply::Redirect("/?id=2".to_string())
    );
    assert_eq!(
        store.web_response(None, Some("bread,soup".to_string()), 0),
        Reply::Failure(Status::NotFound)
    );
    assert_eq!(store.web_response(None, None, 3), Reply::Redirect("/?id=2".to_string()));
    assert_eq!(
        Store::new().web_response(None, Some("soup".to_string()), 3),
        Reply::Failure(Status::NotFound)
    );
}

#[test]
fn the_store_answers_as_the_steps_of_a_request_do() {
    let store = seeded();
    for pick in 0..4 {
        for raw in ["1", "2", "3", "x", ""] {
            assert_eq!(store.get_recipe_by_id(raw), respond(&store, get_recipe_by_id(raw), pick));
        }
        for tags in [vec![], lines(&["soup"]), lines(&["apples", "dessert"]), lines(&["x"])] {
            let again: Vec<String> = tags.iter().map(|tag| tag.to_string()).collect();
            assert_eq!(
                store.get_recipe_by_tag(tags),
                respond(&store, get_recipe_by_tag(again), pick)
            );
        }
        assert_eq!(store.get_recipe_random(pick), respond(&store, get_recipe_random(), pick));
        assert_eq!(
            store.web_response(None, Some("x,y".to_string()), pick),
            respond(&store, web_response(None, Some("x,y".to_string())), pick)
        );
    }
}
