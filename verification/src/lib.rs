//! The decisions of a small recipe catalogue service, apart from the
//! database, the network and the file system that carry them out.
//!
//! A recipe lives in three tables: its own row, one row for each ingredient
//! and one for each tag. Whoever drives the service asks this library what
//! to do next and tells it what came of it:
//!
//! - [`database::init`] leads through the start: finding or creating the
//!   store, bringing its schema up to date, importing a seed. [`schema`]
//!   holds the migrations.
//! - [`import::Importer`] imports recipes, one transaction for each, and
//!   takes back what a failed transaction had inserted.
//! - [`database::fetch_recipe`], [`database::random_recipe_id`] and
//!   [`database::fetch_recipe_id`] read recipes back.
//! - [`api`] decides the response to each request.
//!
//! [`store::Store`] keeps the three tables in memory, and can be started,
//! filled and asked as the store of the service is. It is the measure of
//! what the others guarantee: [`consistency`] proves that what was imported
//! is fetched again unchanged, that a failed import leaves nothing behind,
//! and that importing twice is importing once.

pub mod api;
pub mod consistency;
pub mod database;
pub mod error;
pub mod import;
pub mod recipe;
pub mod schema;
pub mod server;
pub mod store;
pub mod templates;
pub mod text;
