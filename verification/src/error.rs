//! Failures reported by the catalogue.

use vstd::prelude::*;

verus! {

/// Every way in which starting the service or answering a request can fail.
#[derive(Debug, PartialEq, Eq)]
pub enum RecipeServerError {
    /// The seed file could not be opened or read.
    SeedUnreadable(String),
    /// The seed file is not a JSON array of recipes.
    SeedMalformed(String),
    /// The store location is not of the form `sqlite://<path>.db`.
    InvalidLocation(String),
    /// The directory or the file of the store could not be created or opened.
    StorageUnavailable(String),
    /// A schema migration failed.
    SchemaError(String),
    /// The store failed while a statement or a query ran.
    StorageError(String),
    /// No recipe has the given id.
    NotFound(i64),
    /// The store holds no recipe at all.
    StoreEmpty,
}

/// A failure as plain values.
pub enum ErrorView {
    SeedUnreadable(Seq<char>),
    SeedMalformed(Seq<char>),
    InvalidLocation(Seq<char>),
    StorageUnavailable(Seq<char>),
    SchemaError(Seq<char>),
    StorageError(Seq<char>),
    NotFound(i64),
    StoreEmpty,
}

impl View for RecipeServerError {
    type V = ErrorView;

    open spec fn view(&self) -> ErrorView {
        match self {
            RecipeServerError::SeedUnreadable(reason) => ErrorView::SeedUnreadable(reason@),
            RecipeServerError::SeedMalformed(reason) => ErrorView::SeedMalformed(reason@),
            RecipeServerError::InvalidLocation(uri) => ErrorView::InvalidLocation(uri@),
            RecipeServerError::StorageUnavailable(reason) => ErrorView::StorageUnavailable(
                reason@,
            ),
            RecipeServerError::SchemaError(reason) => ErrorView::SchemaError(reason@),
            RecipeServerError::StorageError(reason) => ErrorView::StorageError(reason@),
            RecipeServerError::NotFound(id) => ErrorView::NotFound(*id),
            RecipeServerError::StoreEmpty => ErrorView::StoreEmpty,
        }
    }
}

/// A result without a value, its failure as plain values.
pub open spec fn ended(result: Result<(), RecipeServerError>) -> Result<(), ErrorView> {
    match result {
        Ok(_) => Ok(()),
        Err(error) => Err(error@),
    }
}

impl ErrorView {
    /// Whether the failure ends the start of the service: one that a single
    /// request meets does not.
    pub open spec fn is_fatal(self) -> bool {
        !(self is NotFound || self is StoreEmpty || self is StorageError)
    }

    /// What the failure says of itself.
    pub open spec fn message(self) -> Seq<char> {
        match self {
            ErrorView::SeedUnreadable(reason) => "could not find recipe json: "@ + reason,
            ErrorView::SeedMalformed(reason) => "could not read recipe json: "@ + reason,
            ErrorView::InvalidLocation(uri) => "invalid database uri: "@ + uri,
            ErrorView::StorageUnavailable(reason) => "could not open database: "@ + reason,
            ErrorView::SchemaError(reason) => "sqlx migrate error: "@ + reason,
            ErrorView::StorageError(reason) => "sqlx error: "@ + reason,
            ErrorView::NotFound(id) => "no recipe with id: "@ + crate::text::decimal_seq(
                id as int,
            ),
            ErrorView::StoreEmpty => "the database is empty"@,
        }
    }
}

fn describe(prefix: &str, detail: &str) -> (text: String)
    ensures
        text@ == prefix@ + detail@,
{
    let mut text = prefix.to_owned();
    text.append(detail);
    text
}

impl RecipeServerError {
    /// Reports whether the failure ends the start of the service.
    pub fn fatal(&self) -> (b: bool)
        ensures
            b == self@.is_fatal(),
    {
        match self {
            RecipeServerError::NotFound(_) => false,
            RecipeServerError::StoreEmpty => false,
            RecipeServerError::StorageError(_) => false,
            _ => true,
        }
    }

    /// Says in words what failed.
    pub fn message(&self) -> (text: String)
        ensures
            text@ == self@.message(),
    {
        match self {
            RecipeServerError::SeedUnreadable(reason) => describe(
                "could not find recipe json: ",
                reason.as_str(),
            ),
            RecipeServerError::SeedMalformed(reason) => describe(
                "could not read recipe json: ",
                reason.as_str(),
            ),
            RecipeServerError::InvalidLocation(uri) => describe(
                "invalid database uri: ",
                uri.as_str(),
            ),
            RecipeServerError::StorageUnavailable(reason) => describe(
                "could not open database: ",
                reason.as_str(),
            ),
            RecipeServerError::SchemaError(reason) => describe(
                "sqlx migrate error: ",
                reason.as_str(),
            ),
            RecipeServerError::StorageError(reason) => describe("sqlx error: ", reason.as_str()),
            RecipeServerError::NotFound(id) => {
                let number = crate::text::to_decimal(*id);
                describe("no recipe with id: ", number.as_str())
            },
            RecipeServerError::StoreEmpty => "the database is empty".to_owned(),
        }
    }
}

} // verus!
