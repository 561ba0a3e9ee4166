use mcpanel::db::{
    get_server, insert_server, list_servers, migrate, require_changed, row_to_record, update_server,
    EnvValue, NewServer, Row, ServerRecord, SCHEMA_VERSION,
};
use mcpanel::error::{AppError, AppResult};
use mcpanel::strmap::StrMap;
use rusqlite::Connection;

fn sample() -> NewServer {
    let mut env = StrMap::new();
    env.insert("PLAIN".to_string(), EnvValue::Plain { value: "visible".into() });
    env.insert("API_KEY".to_string(), EnvValue::Secret);
    NewServer {
        name: "echo".into(),
        command: "npx".into(),
        args: vec!["-y".into(), "some-mcp-server".into()],
        env,
        cwd: Some("/tmp".into()),
        auto_start: true,
    }
}

fn version(conn: &Connection) -> i64 {
    conn.query_row("PRAGMA user_version", (), |row| row.get(0)).unwrap()
}

fn apply_migrations(conn: &mut Connection) -> usize {
    let pending = migrate(version(conn));
    for (to, batch) in &pending {
        let tx = conn.transaction().unwrap();
        tx.execute_batch(batch).unwrap();
        tx.pragma_update(None, "user_version", to).unwrap();
        tx.commit().unwrap();
    }
    pending.len()
}

fn open_in_memory() -> Connection {
    let mut conn = Connection::open_in_memory().unwrap();
    apply_migrations(&mut conn);
    conn
}

fn columns(row: &rusqlite::Row<'_>) -> rusqlite::Result<Row> {
    Ok(Row {
        id: row.get(0)?,
        name: row.get(1)?,
        command: row.get(2)?,
        args: row.get(3)?,
        env: row.get(4)?,
        cwd: row.get(5)?,
        auto_start: row.get(6)?,
    })
}

fn db_error(error: rusqlite::Error) -> AppError {
    AppError::Db(error.to_string())
}

fn insert(conn: &Connection, new: &NewServer) -> AppResult<ServerRecord> {
    let row = insert_server(new, 0);
    conn.execute(
        "INSERT INTO servers (name, command, args, env, cwd, auto_start)
         VALUES (?1, ?2, ?3, ?4, ?5, ?6)",
        (row.name, row.command, row.args, row.env, row.cwd, row.auto_start),
    )
    .map_err(db_error)?;
    get(conn, conn.last_insert_rowid())
}

fn get(conn: &Connection, id: i64) -> AppResult<ServerRecord> {
    let row = conn.query_row(
        "SELECT id, name, command, args, env, cwd, auto_start FROM servers WHERE id = ?1",
        (id,),
        columns,
    );
    match row {
        Ok(row) => get_server(Some(row), id),
        Err(rusqlite::Error::QueryReturnedNoRows) => get_server(None, id),
        Err(other) => Err(db_error(other)),
    }
}

fn list(conn: &Connection) -> AppResult<Vec<ServerRecord>> {
    let mut statement = conn
        .prepare("SELECT id, name, command, args, env, cwd, auto_start FROM servers ORDER BY name")
        .map_err(db_error)?;
    let rows = statement.query_map((), columns).map_err(db_error)?;
    list_servers(rows.map(|row| row.unwrap()).collect())
}

fn update(conn: &Connection, record: &ServerRecord) -> AppResult<()> {
    let row = update_server(record);
    let changed = conn
        .execute(
            "UPDATE servers
             SET name = ?2, command = ?3, args = ?4, env = ?5, cwd = ?6, auto_start = ?7
             WHERE id = ?1",
            (row.id, row.name, row.command, row.args, row.env, row.cwd, row.auto_start),
        )
        .map_err(db_error)?;
    require_changed(changed, record.id)
}

fn delete(conn: &Connection, id: i64) -> AppResult<()> {
    let changed = conn.execute("DELETE FROM servers WHERE id = ?1", (id,)).map_err(db_error)?;
    require_changed(changed, id)
}

#[test]
fn crud_round_trip() {
    let conn = open_in_memory();

    let created = insert(&conn, &sample()).unwrap();
    assert_eq!(get(&conn, created.id).unwrap(), created);
    assert_eq!(list(&conn).unwrap(), vec![created.clone()]);
    assert_eq!(created.name, "echo");
    assert_eq!(created.args, ["-y", "some-mcp-server"]);
    assert_eq!(created.cwd.as_deref(), Some("/tmp"));
    assert!(created.auto_start);

    let mut updated = created.clone();
    updated.command = "uvx".into();
    updated.auto_start = false;
    updated.env.insert("EXTRA".into(), EnvValue::Secret);
    update(&conn, &updated).unwrap();
    assert_eq!(get(&conn, created.id).unwrap(), updated);

    delete(&conn, created.id).unwrap();
    assert!(matches!(get(&conn, created.id), Err(AppError::ServerNotFound(_))));
    assert!(matches!(update(&conn, &updated), Err(AppError::ServerNotFound(_))));
    assert!(matches!(delete(&conn, created.id), Err(AppError::ServerNotFound(_))));
}

#[test]
fn names_are_unique() {
    let conn = open_in_memory();
    insert(&conn, &sample()).unwrap();
    assert!(matches!(insert(&conn, &sample()), Err(AppError::Db(_))));
}

#[test]
fn secret_env_values_store_no_plaintext() {
    let conn = open_in_memory();
    let created = insert(&conn, &sample()).unwrap();

    let raw_env: String = conn
        .query_row("SELECT env FROM servers WHERE id = ?1", (created.id,), |row| row.get(0))
        .unwrap();
    assert!(raw_env.contains(r#""API_KEY":{"kind":"secret"}"#));
    assert!(!raw_env.to_lowercase().contains("hunter2"), "sanity");
    assert_eq!(
        raw_env,
        r#"{"API_KEY":{"kind":"secret"},"PLAIN":{"kind":"plain","value":"visible"}}"#
    );
    assert_eq!(
        created.env.get("API_KEY"),
        Some(&EnvValue::Secret),
        "secret round-trips as a marker only"
    );
}

#[test]
fn migrations_apply_once_and_persist() {
    let mut conn = Connection::open_in_memory().unwrap();
    assert_eq!(apply_migrations(&mut conn), SCHEMA_VERSION);
    assert_eq!(version(&conn), SCHEMA_VERSION as i64);
    insert(&conn, &sample()).unwrap();

    // Again: migrations must not rerun, data must survive.
    assert_eq!(apply_migrations(&mut conn), 0);
    assert_eq!(list(&conn).unwrap().len(), 1);
}

#[test]
fn a_database_of_the_first_version_keeps_its_rows() {
    let mut conn = Connection::open_in_memory().unwrap();
    let (to, batch) = migrate(0)[0];
    assert_eq!(to, 1);
    conn.execute_batch(batch).unwrap();
    conn.pragma_update(None, "user_version", to).unwrap();
    let first = insert(&conn, &sample()).unwrap();
    assert_eq!(migrate(1).len(), 1);
    assert_eq!(apply_migrations(&mut conn), 1);
    assert_eq!(list(&conn).unwrap(), vec![first.clone()]);
    // Ids are never reused from here on.
    delete(&conn, first.id).unwrap();
    assert_ne!(insert(&conn, &sample()).unwrap().id, first.id);
}

#[test]
fn a_database_with_an_unknown_version_is_left_alone() {
    assert!(migrate(2).is_empty());
    assert!(migrate(99).is_empty());
    assert!(migrate(-1).is_empty());
}

fn row(args: &str, env: &str) -> Row {
    Row {
        id: 4,
        name: "n".into(),
        command: "c".into(),
        args: args.into(),
        env: env.into(),
        cwd: None,
        auto_start: false,
    }
}

#[test]
fn a_corrupted_row_is_reported() {
    for (args, env) in [
        ("[", "{}"),
        ("{}", "{}"),
        ("[1]", "{}"),
        ("[]", "{"),
        ("[]", "[]"),
        ("[]", r#"{"A":{"kind":"other"}}"#),
        ("[]", r#"{"A":{"kind":"plain"}}"#),
        ("[]", r#"{"A":"plain"}"#),
    ] {
        match row_to_record(row(args, env)) {
            Err(AppError::Json(_)) => {}
            _ => panic!("{args} {env} must be refused"),
        }
    }
    let record = row_to_record(row(r#"["a"]"#, r#"{"A":{"value":"","kind":"plain"}}"#)).unwrap();
    assert_eq!(record.args, ["a"]);
    assert_eq!(record.env.get("A"), Some(&EnvValue::Plain { value: "".into() }));
    match list_servers(vec![row("[]", "{}"), row("[]", "7")]) {
        Err(AppError::Json(message)) => {
            assert_eq!(message, "env is not an object of environment values")
        }
        _ => panic!("one corrupted row fails the list"),
    }
}

#[test]
fn texts_of_every_kind_survive_the_columns() {
    let mut new = sample();
    new.args = vec!["".into(), "\"quoted\"\n\t\\".into(), "é — ☃ \u{1F600}".into(), "\u{0}".into()];
    new.env.insert("ключ".into(), EnvValue::Plain { value: "{\"kind\":\"secret\"}".into() });
    let record = row_to_record(insert_server(&new, 11)).unwrap();
    assert_eq!(record.id, 11);
    assert_eq!(record.args, new.args);
    assert_eq!(record.env, new.env);
    assert_eq!(record.cwd, new.cwd);
}

#[test]
fn a_bad_args_column_is_reported_in_the_words_of_the_parser() {
    match row_to_record(row("[1]", "{}")) {
        Err(AppError::Json(message)) => {
            assert_eq!(message, "invalid type: integer `1`, expected a string at line 1 column 2")
        }
        _ => panic!("a number is no argument"),
    }
}

#[test]
fn no_variable_name_is_special_to_the_store() {
    for name in ["$serde_json::private::RawValue", "$serde_json::private::Number", "kind"] {
        for value in [EnvValue::Secret, EnvValue::Plain { value: "1".into() }] {
            let mut new = sample();
            new.env = StrMap::new();
            new.env.insert(name.into(), value);
            let record = row_to_record(insert_server(&new, 3)).expect(name);
            assert_eq!(record.env, new.env);
        }
    }
}
