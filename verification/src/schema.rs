//! The schema of the store: three tables, each made by one migration.

use vstd::prelude::*;

verus! {

/// One step that brings the schema forward.
#[derive(Debug, PartialEq, Eq)]
pub struct Migration {
    pub version: i64,
    pub description: &'static str,
    pub sql: &'static str,
}

/// A migration as plain values.
pub struct MigrationView {
    pub version: i64,
    pub description: Seq<char>,
    pub sql: Seq<char>,
}

impl View for Migration {
    type V = MigrationView;

    open spec fn view(&self) -> MigrationView {
        MigrationView { version: self.version, description: self.description@, sql: self.sql@ }
    }
}

impl DeepView for Migration {
    type V = MigrationView;

    open spec fn deep_view(&self) -> MigrationView {
        self@
    }
}

/// The table of the recipes: the id is its key, so no two recipes have the
/// same id.
pub open spec fn recipes_table() -> MigrationView {
    MigrationView {
        version: 1,
        description: "recipes"@,
        sql: "CREATE TABLE recipes (id INTEGER PRIMARY KEY NOT NULL, name TEXT NOT NULL, preparation TEXT NOT NULL, source TEXT NOT NULL);"@,
    }
}

/// The table of the ingredients, each with the id of its recipe.
pub open spec fn ingredients_table() -> MigrationView {
    MigrationView {
        version: 2,
        description: "ingredients"@,
        sql: "CREATE TABLE ingredients (recipe_id INTEGER NOT NULL, ingredient TEXT NOT NULL);"@,
    }
}

/// The table of the tags, each with the id of its recipe.
pub open spec fn tags_table() -> MigrationView {
    MigrationView {
        version: 3,
        description: "tags"@,
        sql: "CREATE TABLE tags (recipe_id INTEGER NOT NULL, tag TEXT NOT NULL);"@,
    }
}

/// The migrations of the schema in the order of their versions.
pub open spec fn schema() -> Seq<MigrationView> {
    seq![recipes_table(), ingredients_table(), tags_table()]
}

/// Gives the migrations of the schema, in the order in which they are
/// applied.
pub fn migrations() -> (list: Vec<Migration>)
    ensures
        list.deep_view() == schema(),
{
    let mut list: Vec<Migration> = Vec::new();
    list.push(
        Migration {
            version: 1,
            description: "recipes",
            sql: "CREATE TABLE recipes (id INTEGER PRIMARY KEY NOT NULL, name TEXT NOT NULL, preparation TEXT NOT NULL, source TEXT NOT NULL);",
        },
    );
    list.push(
        Migration {
            version: 2,
            description: "ingredients",
            sql: "CREATE TABLE ingredients (recipe_id INTEGER NOT NULL, ingredient TEXT NOT NULL);",
        },
    );
    list.push(
        Migration {
            version: 3,
            description: "tags",
            sql: "CREATE TABLE tags (recipe_id INTEGER NOT NULL, tag TEXT NOT NULL);",
        },
    );
    assert(list.deep_view() =~= schema());
    list
}

/// Each migration has a higher version than the one before it.
pub proof fn lemma_schema_versions_ascend()
    ensures
        forall|i: int, j: int|
            0 <= i < j < schema().len() ==> (#[trigger] schema()[i]).version < (
            #[trigger] schema()[j]).version,
{
}

} // verus!
