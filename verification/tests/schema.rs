use recipe_server::schema::{migrations, Migration};

#[test]
fn the_schema_has_one_migration_for_each_table() {
    assert_eq!(
        migrations(),
        vec![
            Migration {
                version: 1,
                description: "recipes",
                sql: "CREATE TABLE recipes (id INTEGER PRIMARY KEY NOT NULL, name TEXT NOT NULL, preparation TEXT NOT NULL, source TEXT NOT NULL);",
            },
            Migration {
                version: 2,
                description: "ingredients",
                sql: "CREATE TABLE ingredients (recipe_id INTEGER NOT NULL, ingredient TEXT NOT NULL);",
            },
            Migration {
                version: 3,
                description: "tags",
                sql: "CREATE TABLE tags (recipe_id INTEGER NOT NULL, tag TEXT NOT NULL);",
            },
        ]
    );
}

#[test]
fn the_versions_of_the_schema_ascend() {
    let list = migrations();
    for pair in list.windows(2) {
        assert!(pair[0].version < pair[1].version);
    }
}
