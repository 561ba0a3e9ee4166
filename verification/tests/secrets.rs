use std::collections::BTreeMap;

use mcpanel::db::{migrate, update_server, EnvValue, ServerRecord};
use mcpanel::error::{AppError, AppResult};
use mcpanel::lifecycle::{
    remove, remove_loaded, remove_step, set_secret, start, update, AfterLoad, AfterResolve, Raced,
    RemoveStep, Removed,
};
use mcpanel::secrets::{
    account, delete_keys_best_effort, delete_secret, delete_server_secrets, get_secret,
    migrate_name_keyed_secrets, resolve_env, secret_keys, store_secret, KeyringAction, KeyringFault,
};
use mcpanel::state::{AppState, ServerStatus};
use mcpanel::strmap::StrMap;

/// A credential store in memory, with the answers of a real one.
struct Store {
    entries: BTreeMap<String, String>,
    locked: bool,
}

impl Store {
    fn new() -> Store {
        Store { entries: BTreeMap::new(), locked: false }
    }

    fn get(&self, account: &str) -> Result<String, KeyringFault> {
        if self.locked {
            return Err(KeyringFault::Other("the store is locked".into()));
        }
        match self.entries.get(account) {
            Some(value) => Ok(value.clone()),
            None => Err(KeyringFault::NoEntry("no matching entry".into())),
        }
    }

    fn put(&mut self, account: String, value: String) -> Result<(), KeyringFault> {
        if self.locked {
            return Err(KeyringFault::Other("the store is locked".into()));
        }
        self.entries.insert(account, value);
        Ok(())
    }

    fn delete(&mut self, account: &str) -> Result<(), KeyringFault> {
        if self.locked {
            return Err(KeyringFault::Other("the store is locked".into()));
        }
        match self.entries.remove(account) {
            Some(_) => Ok(()),
            None => Err(KeyringFault::NoEntry("no matching entry".into())),
        }
    }

    fn resolve(&self, record: &ServerRecord) -> AppResult<StrMap<String>> {
        let mut resolver = resolve_env(record);
        while let Some(account) = resolver.next_account() {
            resolver.fetched(self.get(&account))?;
        }
        Ok(resolver.finish())
    }

    fn migrate(&mut self, records: &Vec<ServerRecord>) -> Vec<AppResult<()>> {
        let mut ends = Vec::new();
        for mut migration in migrate_name_keyed_secrets(records) {
            let mut action = migration.begin();
            loop {
                let reply = match action {
                    KeyringAction::Get(account) => self.get(&account),
                    KeyringAction::Put(account, value) => {
                        self.put(account, value).map(|()| String::new())
                    }
                    KeyringAction::Delete(account) => self.delete(&account).map(|()| String::new()),
                    KeyringAction::Finish(end) => {
                        ends.push(end);
                        break;
                    }
                };
                action = migration.migrate_one(reply);
            }
        }
        ends
    }
}

fn record(id: i64, name: &str, env: &[(&str, EnvValue)]) -> ServerRecord {
    let mut map = StrMap::new();
    for (key, value) in env {
        map.insert(key.to_string(), value.clone());
    }
    ServerRecord {
        id,
        name: name.into(),
        command: "true".into(),
        args: vec![],
        env: map,
        cwd: None,
        auto_start: false,
    }
}

/// What `set_secret` does: the value to the store, the marker to the record.
fn set(store: &mut Store, record: &ServerRecord, key: &str, value: &str) -> ServerRecord {
    assert!(store_secret(store.put(account(record.id, key), value.into())).is_ok());
    set_secret(record.clone(), key.to_string()).unwrap_or_else(|| record.clone())
}

/// A removal, start to end, of a server that does not run.
fn remove_server(store: &mut Store, record: &ServerRecord) {
    let mut step = remove();
    let mut order = Vec::new();
    loop {
        step = match step {
            RemoveStep::StopFirst => {
                order.push("stop");
                remove_step(Removed::StoppedFirst, Ok(()))
            }
            RemoveStep::Load => {
                order.push("load");
                remove_loaded(Ok(record.clone()))
            }
            RemoveStep::DeleteSecrets(accounts) => {
                order.push("secrets");
                for account in &accounts {
                    assert!(delete_secret(store.delete(account)).is_ok());
                }
                remove_step(Removed::SecretsDeleted, Ok(()))
            }
            RemoveStep::DeleteRow => {
                order.push("row");
                remove_step(Removed::RowDeleted, Ok(()))
            }
            RemoveStep::StopAgain => {
                order.push("stop");
                remove_step(Removed::StoppedAgain, Ok(()))
            }
            RemoveStep::Finished(end) => {
                assert!(end.is_ok());
                break;
            }
        };
    }
    assert_eq!(order, ["stop", "load", "secrets", "row", "stop"]);
}

#[test]
fn store_get_delete_round_trip() {
    let mut store = Store::new();
    let key = account(-100, "API_KEY");
    assert_eq!(key, "-100/API_KEY");

    store_secret(store.put(key.clone(), "hunter2".into())).expect("store");
    assert_eq!(get_secret(store.get(&key)).expect("get"), "hunter2");

    delete_secret(store.delete(&key)).expect("delete");
    assert_eq!(
        get_secret(store.get(&key)),
        Err(AppError::Keyring("no matching entry".into()))
    );
    // Deleting again is fine — absent is the desired end state.
    delete_secret(store.delete(&key)).expect("idempotent delete");
}

#[test]
fn a_failing_store_is_reported() {
    let mut store = Store::new();
    store.locked = true;
    let locked = || AppError::Keyring("the store is locked".into());
    assert_eq!(store_secret(store.put("a".into(), "b".into())), Err(locked()));
    assert_eq!(get_secret(store.get("a")), Err(locked()));
    assert_eq!(delete_secret(store.delete("a")), Err(locked()));
}

#[test]
fn resolve_env_mixes_plain_and_secret() {
    let mut store = Store::new();
    store_secret(store.put(account(-101, "TOKEN"), "s3cr3t".into())).expect("store");
    let record = record(
        -101,
        "mcpanel-test-resolve",
        &[("PLAIN", EnvValue::Plain { value: "visible".into() }), ("TOKEN", EnvValue::Secret)],
    );

    let resolved = store.resolve(&record).expect("resolve");
    assert_eq!(resolved.get("PLAIN").unwrap(), "visible");
    assert_eq!(resolved.get("TOKEN").unwrap(), "s3cr3t");
    assert_eq!(resolved.len(), 2);

    delete_secret(store.delete(&account(-101, "TOKEN"))).expect("cleanup");
}

#[test]
fn start_fails_when_secret_is_unresolvable() {
    let record = record(7, "mcpanel-test-missing-secret", &[("MISSING", EnvValue::Secret)]);
    for locked in [false, true] {
        let mut store = Store::new();
        store.locked = locked;
        let mut state = AppState::new();
        let loading = start(&mut state, record.id).expect("claimed");
        let (resolving, loaded) = match loading.loaded(&mut state, Raced::Ready(Ok(record.clone()))) {
            AfterLoad::Resolve(resolving, loaded) => (resolving, loaded),
            AfterLoad::Finished(_) => panic!("the record is there"),
        };
        let env = store.resolve(&loaded);
        match resolving.resolved(&mut state, Raced::Ready(env)) {
            AfterResolve::Finished(Err(AppError::Keyring(_))) => {}
            _ => panic!("a server must not launch without its credentials"),
        }
        assert!(matches!(state.status(record.id), ServerStatus::Errored { .. }));
    }
}

#[test]
fn secrets_survive_rename() {
    let mut store = Store::new();
    let first = record(3, "rename-me", &[("API_KEY", EnvValue::Secret)]);
    let kept = set(&mut store, &first, "API_KEY", "hunter2");
    assert_eq!(kept, first, "the key was marked already");

    let mut renamed = first.clone();
    renamed.name = "renamed".into();
    let plan = update(&first, &renamed, false).expect("rename");
    assert_eq!(plan.row.name, "renamed");
    assert!(plan.delete.is_empty());

    assert_eq!(get_secret(store.get(&account(3, "API_KEY"))).expect("still reachable"), "hunter2");
    assert_eq!(store.resolve(&renamed).expect("resolve").get("API_KEY").unwrap(), "hunter2");
    remove_server(&mut store, &renamed);
}

#[test]
fn remove_deletes_keyring_entries() {
    let mut store = Store::new();
    let record = record(4, "doomed-secret", &[("API_KEY", EnvValue::Secret)]);
    set(&mut store, &record, "API_KEY", "hunter2");
    remove_server(&mut store, &record);
    assert!(
        get_secret(store.get(&account(4, "API_KEY"))).is_err(),
        "keyring entry must be gone"
    );
}

#[test]
fn recreated_server_does_not_inherit_secrets() {
    let conn = rusqlite::Connection::open_in_memory().unwrap();
    for (_, batch) in migrate(0) {
        conn.execute_batch(batch).unwrap();
    }
    let add = |name: &str| {
        let row = update_server(&record(0, name, &[("API_KEY", EnvValue::Secret)]));
        conn.execute(
            "INSERT INTO servers (name, command, args, env) VALUES (?1, ?2, ?3, ?4)",
            (row.name, row.command, row.args, row.env),
        )
        .unwrap();
        record(conn.last_insert_rowid(), name, &[("API_KEY", EnvValue::Secret)])
    };

    let mut store = Store::new();
    let first = add("reborn");
    set(&mut store, &first, "API_KEY", "hunter2");
    remove_server(&mut store, &first);
    conn.execute("DELETE FROM servers WHERE id = ?1", (first.id,)).unwrap();

    let second = add("reborn");
    assert_ne!(second.id, first.id, "ids must never be reused");
    let err = store.resolve(&second).err().expect("no inherited credential");
    assert!(matches!(err, AppError::Keyring(_)), "got: {err:?}");
    // Not even where the removal left the entry behind.
    assert_ne!(account(first.id, "API_KEY"), account(second.id, "API_KEY"));
}

#[test]
fn startup_migration_moves_name_keyed_entries_idempotently() {
    let mut store = Store::new();
    let record = record(8, "mcpanel-test-legacy", &[("API_KEY", EnvValue::Secret)]);
    // Plant the entry the way a pre-migration install would have stored it.
    store.put("mcpanel-test-legacy/API_KEY".into(), "hunter2".into()).expect("plant legacy secret");

    let records = vec![record];
    assert_eq!(store.migrate(&records), vec![Ok(())]);
    assert_eq!(get_secret(store.get("8/API_KEY")).expect("migrated"), "hunter2");
    assert!(
        matches!(store.get("mcpanel-test-legacy/API_KEY"), Err(KeyringFault::NoEntry(_))),
        "legacy entry must be deleted"
    );

    // Rerun: still the same value, still no legacy entry.
    assert_eq!(store.migrate(&records), vec![Ok(())]);
    assert_eq!(get_secret(store.get("8/API_KEY")).expect("still migrated"), "hunter2");
    assert_eq!(store.entries.len(), 1);
}

#[test]
fn a_migration_clears_a_stale_copy_and_leaves_the_rest() {
    let mut store = Store::new();
    let records = vec![
        record(
            1,
            "a",
            &[("K", EnvValue::Secret), ("P", EnvValue::Plain { value: "v".into() }), ("Z", EnvValue::Secret)],
        ),
        record(2, "b", &[("K", EnvValue::Secret)]),
    ];
    store.put("1/K".into(), "new".into()).unwrap();
    store.put("a/K".into(), "stale".into()).unwrap();
    store.put("a/P".into(), "not ours".into()).unwrap();
    assert_eq!(store.migrate(&records), vec![Ok(()), Ok(()), Ok(())]);
    assert_eq!(store.get("1/K").unwrap(), "new");
    assert!(store.get("a/K").is_err());
    assert_eq!(store.get("a/P").unwrap(), "not ours");
    store.locked = true;
    assert_eq!(
        store.migrate(&records)[2],
        Err(AppError::Keyring("the store is locked".into()))
    );
}

#[test]
fn a_server_named_like_its_own_id_loses_the_migrated_entry() {
    // The one name on which the two schemes meet: the stale copy that is
    // cleared is the entry itself.
    let mut store = Store::new();
    store.put("5/K".into(), "v".into()).unwrap();
    store.migrate(&vec![record(5, "5", &[("K", EnvValue::Secret)])]);
    assert!(store.get("5/K").is_err());
}

#[test]
fn only_marked_keys_are_deleted() {
    let record = record(
        -9,
        "n",
        &[("B", EnvValue::Secret), ("A", EnvValue::Secret), ("C", EnvValue::Plain { value: "".into() })],
    );
    assert_eq!(secret_keys(&record), ["A", "B"]);
    assert_eq!(delete_server_secrets(&record), ["-9/A", "-9/B"]);
    assert_eq!(delete_keys_best_effort(3, &vec!["X/Y".into()]), ["3/X/Y"]);
}

#[test]
fn migrating_a_whole_list_again_changes_nothing() {
    let mut store = Store::new();
    let secret = [("K", EnvValue::Secret), ("T", EnvValue::Secret)];
    let records = vec![record(1, "a", &secret), record(2, "b", &secret)];
    for (account, value) in [("a/K", "ak"), ("b/K", "bk"), ("2/K", "new"), ("b/T", "bt")] {
        store.put(account.into(), value.into()).expect("plant");
    }
    assert_eq!(store.migrate(&records), vec![Ok(()), Ok(()), Ok(()), Ok(())]);
    let after = store.entries.clone();
    assert_eq!(after.len(), 3);
    assert_eq!(get_secret(store.get("1/K")).expect("moved"), "ak");
    assert_eq!(get_secret(store.get("2/K")).expect("kept"), "new");
    assert_eq!(get_secret(store.get("2/T")).expect("moved"), "bt");
    assert_eq!(store.migrate(&records), vec![Ok(()), Ok(()), Ok(()), Ok(())]);
    assert_eq!(store.entries, after);
}
