use otamoryx::trash_snapshot::{
    archive_keys, is_snapshot_skipped, key_columns, related_rows_query, restore_statement, ArchiveKey,
    ColumnInfo, ForeignKeyInfo, KeyColumn, RestoreStatement,
};

fn s(v: &str) -> String {
    v.to_string()
}

fn strings(v: &[&str]) -> Vec<String> {
    v.iter().map(|x| x.to_string()).collect()
}

fn key(column: &str, on_delete: &str) -> ArchiveKey {
    ArchiveKey {
        column: s(column),
        on_delete: s(on_delete),
    }
}

#[test]
fn archive_tables_are_captured_elsewhere() {
    assert!(is_snapshot_skipped("archives"));
    assert!(is_snapshot_skipped("archive_tags"));
    assert!(!is_snapshot_skipped("reading_progress"));
}

#[test]
fn only_foreign_keys_to_archives_count() {
    let fks = vec![
        ForeignKeyInfo { table: s("users"), from: s("user_id"), on_delete: s("CASCADE") },
        ForeignKeyInfo { table: s("archives"), from: s("archive_id"), on_delete: s("CASCADE") },
        ForeignKeyInfo { table: s("archives"), from: s("cover_id"), on_delete: s("SET NULL") },
    ];
    let keys = archive_keys(&fks);
    let seen: Vec<(String, String)> = keys.iter().map(|k| (k.column.clone(), k.on_delete.clone())).collect();
    assert_eq!(seen, vec![(s("archive_id"), s("CASCADE")), (s("cover_id"), s("SET NULL"))]);
}

#[test]
fn primary_key_columns_keep_their_place() {
    let info = vec![
        ColumnInfo { name: s("note"), pk: 0 },
        ColumnInfo { name: s("user_id"), pk: 2 },
        ColumnInfo { name: s("id"), pk: 1 },
    ];
    let pk: Vec<(i64, String)> = key_columns(&info).iter().map(|k| (k.position, k.name.clone())).collect();
    assert_eq!(pk, vec![(2, s("user_id")), (1, s("id"))]);
}

#[test]
fn rows_are_read_as_sql_literals() {
    let query = related_rows_query(
        "reading_progress",
        &strings(&["id", "archive_id"]),
        &vec![key("archive_id", "CASCADE"), key("cover\"id", "SET NULL")],
    );
    assert_eq!(
        query,
        "SELECT quote(\"id\"), quote(\"archive_id\") FROM \"reading_progress\" WHERE \"archive_id\" = ? OR \"cover\"\"id\" = ?"
    );
}

#[test]
fn cascading_rows_come_back_as_inserts() {
    let statement = restore_statement(
        "reading_progress",
        &strings(&["id", "archive_id"]),
        &vec![KeyColumn { position: 1, name: s("id") }],
        &vec![key("archive_id", "cascade")],
        &strings(&["'p1'", "'a1'"]),
    );
    assert_eq!(
        statement_text(&statement),
        ("insert", s("INSERT INTO \"reading_progress\" (\"id\", \"archive_id\") VALUES ('p1', 'a1')"))
    );
}

#[test]
fn unlinked_rows_get_their_archive_columns_back_by_primary_key_order() {
    let statement = restore_statement(
        "collection_items",
        &strings(&["user_id", "id", "archive_id", "note"]),
        &vec![
            KeyColumn { position: 2, name: s("user_id") },
            KeyColumn { position: 1, name: s("id") },
        ],
        &vec![key("archive_id", "SET NULL")],
        &strings(&["'u1'", "7", "'a1'", "NULL"]),
    );
    assert_eq!(
        statement_text(&statement),
        (
            "update",
            s("UPDATE \"collection_items\" SET \"archive_id\" = 'a1' WHERE \"id\" = 7 AND \"user_id\" = 'u1'")
        )
    );
}

#[test]
fn rows_without_a_primary_key_are_named_by_every_column() {
    let statement = restore_statement(
        "notes",
        &strings(&["archive_id", "body"]),
        &Vec::new(),
        &vec![key("archive_id", "NO ACTION")],
        &strings(&["'a1'", "NULL"]),
    );
    assert_eq!(
        statement_text(&statement),
        (
            "update",
            s("UPDATE \"notes\" SET \"archive_id\" = 'a1' WHERE \"archive_id\" = 'a1' AND \"body\" IS NULL")
        )
    );
}

fn statement_text(statement: &RestoreStatement) -> (&'static str, String) {
    match statement {
        RestoreStatement::Insert(sql) => ("insert", sql.clone()),
        RestoreStatement::Update(sql) => ("update", sql.clone()),
    }
}
