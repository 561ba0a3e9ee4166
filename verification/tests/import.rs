use std::collections::BTreeMap;
use std::path::PathBuf;

use mcpanel::db::EnvValue;
use mcpanel::error::AppError;
use mcpanel::import::{
    candidate_paths, discover, has_placeholder, import, is_secret_key, known_clients,
    mark_conflicts, parse_config, parse_entry, parse_root, read_file, read_files, scalar_to_string,
    scan, unique_name, ApplyStep, Base, ClientLocation, ImportCandidate, ParsedConfig, ParsedServer,
    Platform, ReadFile,
};
use mcpanel::json::{parse_json, Json};
use mcpanel::strmap::{NameSet, StrMap};

fn parse(text: &str) -> ParsedConfig {
    match parse_config(text) {
        Ok(parsed) => parsed,
        Err(error) => panic!("does not parse: {error:?}"),
    }
}

fn code_of(text: &str) -> &'static str {
    match parse_config(text) {
        Ok(_) => panic!("parses"),
        Err(error) => error.code(),
    }
}

fn only(text: &str) -> ParsedServer {
    let parsed = parse(text);
    assert_eq!(parsed.skipped, vec![], "expected no skipped entries");
    assert_eq!(parsed.servers.len(), 1, "expected exactly one server");
    parsed.servers.into_iter().next().unwrap()
}

fn get<'a>(map: &'a StrMap<String>, key: &str) -> Option<&'a str> {
    map.get(key).map(|value| value.as_str())
}

fn keys(map: &StrMap<String>) -> Vec<String> {
    (0..map.len()).map(|i| map.key_at(i).to_string()).collect()
}

fn names(list: &[&str]) -> NameSet {
    let mut set = NameSet::new();
    for name in list {
        set.insert(name.to_string());
    }
    set
}

#[test]
fn reads_the_claude_desktop_shape() {
    let server =
        only(r#"{"mcpServers":{"files":{"command":"npx","args":["-y","@mcp/fs","/tmp"]}}}"#);
    assert_eq!(server.candidate.name, "files");
    assert_eq!(server.candidate.command, "npx");
    assert_eq!(server.candidate.args, ["-y", "@mcp/fs", "/tmp"]);
    assert_eq!(server.candidate.cwd, None);
}

#[test]
fn reads_the_vs_code_servers_key() {
    let server = only(r#"{"servers":{"files":{"command":"npx","type":"stdio"}}}"#);
    assert_eq!(server.candidate.name, "files");
}

#[test]
fn rejects_a_file_with_no_server_table() {
    assert_eq!(code_of(r#"{"theme":"dark"}"#), "invalid_input");
}

#[test]
fn rejects_text_that_is_not_json() {
    assert_eq!(code_of("not json"), "json");
}

#[test]
fn skips_remote_servers_by_url_and_by_type() {
    let parsed = parse(
        r#"{"mcpServers":{
            "remote":{"url":"https://example.test/mcp"},
            "streamed":{"type":"http","command":"ignored"},
            "sse":{"transport":"sse","command":"ignored"},
            "local":{"command":"npx"}
        }}"#,
    );
    assert_eq!(parsed.servers.len(), 1);
    assert_eq!(parsed.servers[0].candidate.name, "local");
    let reasons: BTreeMap<_, _> = parsed
        .skipped
        .iter()
        .map(|entry| (entry.name.as_str(), entry.reason.as_str()))
        .collect();
    assert!(reasons["remote"].contains("remote server"));
    assert!(reasons["streamed"].contains("http transport"));
    assert!(reasons["sse"].contains("sse transport"));
    assert_eq!(
        reasons["remote"],
        "remote server (https://example.test/mcp) — MCPanel speaks stdio only"
    );
    assert_eq!(reasons["sse"], "sse transport — MCPanel speaks stdio only");
}

#[test]
fn stdio_type_is_honoured_not_skipped() {
    assert_eq!(
        only(r#"{"mcpServers":{"a":{"type":"STDIO","command":"npx"}}}"#)
            .candidate
            .command,
        "npx"
    );
}

#[test]
fn one_bad_entry_never_costs_the_others() {
    let parsed = parse(
        r#"{"mcpServers":{
            "broken":{"args":["--flag"]},
            "alsobroken":"just a string",
            "fine":{"command":"npx"}
        }}"#,
    );
    assert_eq!(parsed.servers.len(), 1);
    assert_eq!(parsed.skipped.len(), 2);
    assert!(parsed.skipped.iter().any(|e| e.reason == "no command"));
}

#[test]
fn coerces_scalar_args_and_env_values() {
    let server =
        only(r#"{"mcpServers":{"a":{"command":"x","args":[8080,true],"env":{"PORT":3000}}}}"#);
    assert_eq!(server.candidate.args, ["8080", "true"]);
    assert_eq!(get(&server.candidate.env, "PORT"), Some("3000"));
}

#[test]
fn rejects_structured_args_rather_than_flattening_them() {
    let parsed = parse(r#"{"mcpServers":{"a":{"command":"x","args":[{"k":"v"}]}}}"#);
    assert_eq!(parsed.servers.len(), 0);
    assert!(parsed.skipped[0].reason.contains("non-scalar"));
}

#[test]
fn credential_keys_are_withheld_from_the_preview() {
    let server = only(
        r#"{"mcpServers":{"a":{"command":"x","env":{
            "OPENAI_API_KEY":"sk-live-secret",
            "GITHUB_TOKEN":"ghp_secret",
            "LOG_LEVEL":"debug"
        }}}}"#,
    );
    assert_eq!(
        server.candidate.secret_keys,
        ["GITHUB_TOKEN", "OPENAI_API_KEY"]
    );
    assert_eq!(
        keys(&server.candidate.env),
        ["LOG_LEVEL"],
        "secret values must not appear in the preview"
    );
    assert_eq!(get(&server.secrets, "OPENAI_API_KEY"), Some("sk-live-secret"));

    let preview = server.candidate.to_json().to_text();
    assert!(!preview.contains("sk-live-secret"));
    assert!(!preview.contains("ghp_secret"));
    assert_eq!(
        preview,
        r#"{"args":[],"command":"x","conflicts":false,"cwd":null,"env":{"LOG_LEVEL":"debug"},"name":"a","notes":[],"secret_keys":["GITHUB_TOKEN","OPENAI_API_KEY"]}"#
    );
}

#[test]
fn classifies_by_segment_not_substring() {
    assert!(is_secret_key("OPENAI_API_KEY"));
    assert!(is_secret_key("token"));
    assert!(is_secret_key("service-auth-pat"));
    assert!(!is_secret_key("MONKEY_MODE"));
    assert!(!is_secret_key("PATH"));
    assert!(!is_secret_key("KEYBOARD_LAYOUT"));
    assert!(!is_secret_key("LOG_LEVEL"));
}

#[test]
fn every_secret_segment_is_recognised_anywhere() {
    for segment in [
        "KEY", "KEYS", "APIKEY", "TOKEN", "SECRET", "PASSWORD", "PASSWD", "CREDENTIAL",
        "CREDENTIALS", "AUTH", "PAT",
    ] {
        assert!(is_secret_key(segment));
        assert!(is_secret_key(&segment.to_lowercase()));
        assert!(is_secret_key(&format!("a.{segment}/b")));
        assert!(!is_secret_key(&format!("x{segment}")));
        assert!(!is_secret_key(&format!("{segment}9")));
    }
    assert!(!is_secret_key(""));
    assert!(is_secret_key("é KEY"));
}

#[test]
fn an_empty_credential_value_stays_a_plain_placeholder() {
    let server = only(r#"{"mcpServers":{"a":{"command":"x","env":{"API_KEY":""}}}}"#);
    assert!(server.candidate.secret_keys.is_empty());
    assert_eq!(get(&server.candidate.env, "API_KEY"), Some(""));
}

#[test]
fn placeholders_stay_visible_instead_of_entering_the_keyring() {
    let server =
        only(r#"{"mcpServers":{"a":{"command":"x","env":{"API_KEY":"${input:api-key}"}}}}"#);
    assert_eq!(server.secrets.len(), 0);
    assert_eq!(
        get(&server.candidate.env, "API_KEY"),
        Some("${input:api-key}")
    );
    assert!(server.candidate.notes[0].contains("placeholder"));
}

#[test]
fn a_dollar_sign_alone_is_no_placeholder() {
    assert!(has_placeholder("a${b"));
    assert!(has_placeholder("$${"));
    assert!(!has_placeholder("$ {"));
    assert!(!has_placeholder("{$"));
    assert!(!has_placeholder("$"));
    assert!(!has_placeholder(""));
}

#[test]
fn notes_an_unsupported_env_file() {
    let server = only(r#"{"mcpServers":{"a":{"command":"x","envFile":".env"}}}"#);
    assert!(server.candidate.notes[0].contains("envFile"));
}

#[test]
fn notes_come_in_order_with_the_env_file_last() {
    let server = only(
        r#"{"mcpServers":{"a":{"command":"x","envFile":null,
            "env":{"B":"${b}","A":"${a}","C":"plain"}}}}"#,
    );
    assert_eq!(
        server.candidate.notes,
        [
            "A holds an unresolved placeholder — set its real value after importing",
            "B holds an unresolved placeholder — set its real value after importing",
            "envFile is not supported — add those variables by hand",
        ]
    );
}

#[test]
fn every_reason_to_skip_an_entry() {
    let cases = [
        (r#"7"#, "entry is not an object"),
        (r#"{"url":"http://x"}"#, "remote server (http://x) — MCPanel speaks stdio only"),
        (r#"{"type":"http","transport":"stdio","command":"x"}"#, "http transport — MCPanel speaks stdio only"),
        (r#"{"command":"  "}"#, "no command"),
        (r#"{"command":3}"#, "no command"),
        (r#"{"command":"x","args":{}}"#, "\"args\" is not an array"),
        (r#"{"command":"x","args":[null]}"#, "\"args\" contains a non-scalar value"),
        (r#"{"command":"x","env":[]}"#, "\"env\" is not an object"),
        (r#"{"command":"x","env":{" ":"v"}}"#, "\"env\" has an empty variable name"),
        (r#"{"command":"x","env":{"A":[]}}"#, "env A is not a string"),
    ];
    for (text, reason) in cases {
        let entry = parse_json(text).unwrap();
        match parse_entry("name", &entry) {
            Ok(_) => panic!("{text} is importable"),
            Err(found) => assert_eq!(found, reason),
        }
    }
}

#[test]
fn a_non_string_type_hides_the_transport() {
    let entry = parse_json(r#"{"type":5,"transport":"http","command":"x"}"#).unwrap();
    assert!(parse_entry("a", &entry).is_ok());
}

#[test]
fn command_and_cwd_are_trimmed() {
    let server = only(r#"{"mcpServers":{"a":{"command":"  npx\t","cwd":"  /tmp "}}}"#);
    assert_eq!(server.candidate.command, "npx");
    assert_eq!(server.candidate.cwd, Some("/tmp".to_string()));
    let server = only(r#"{"mcpServers":{"a":{"command":"npx","cwd":"   "}}}"#);
    assert_eq!(server.candidate.cwd, None);
}

#[test]
fn a_blank_name_is_reported_as_unnamed() {
    let parsed = parse(r#"{"mcpServers":{"  ":{"command":"x"}}}"#);
    assert!(parsed.servers.is_empty());
    assert_eq!(parsed.skipped()[0].name, "(unnamed)");
    assert_eq!(parsed.skipped()[0].reason, "entry has an empty name");
    assert!(!parsed.is_empty());
}

#[test]
fn the_first_member_that_is_a_table_wins() {
    let parsed = parse(r#"{"mcpServers":null,"servers":{"a":{"command":"x"}}}"#);
    assert_eq!(parsed.candidates().len(), 1);
    assert_eq!(parsed.candidates()[0].name, "a");
    assert_eq!(parsed.candidates()[0].command, "x");
    assert!(parsed.skipped().is_empty());
    assert_eq!(code_of(r#"{"mcpServers":3,"servers":[]}"#), "invalid_input");
    let root = parse_json(r#"{"mcpServers":{},"servers":{"a":{"command":"x"}}}"#).unwrap();
    match parse_root(&root) {
        Ok(parsed) => assert!(parsed.is_empty()),
        Err(_) => panic!("no table"),
    }
}

#[test]
fn scalars_become_text() {
    assert_eq!(scalar_to_string(&Json::string("a")), Some("a".to_string()));
    assert_eq!(scalar_to_string(&Json::from_i64(-12)), Some("-12".to_string()));
    assert_eq!(scalar_to_string(&parse_json("1.5").unwrap()), Some("1.5".to_string()));
    assert_eq!(scalar_to_string(&Json::Bool(false)), Some("false".to_string()));
    assert_eq!(scalar_to_string(&Json::Null), None);
    assert_eq!(scalar_to_string(&Json::empty_object()), None);
}

#[test]
fn unique_name_suffixes_only_on_collision() {
    let taken = names(&["files", "files (2)"]);
    assert_eq!(unique_name("other", &taken), "other");
    assert_eq!(unique_name("files", &taken), "files (3)");
}

#[test]
fn unique_name_takes_the_first_gap() {
    let taken = names(&["a", "a (3)", "a (2)", "a (5)"]);
    assert_eq!(unique_name("a", &taken), "a (4)");
}

#[test]
fn scan_finds_planted_configs_and_ignores_unrelated_files() {
    let home = PathBuf::from("/home/u");
    let paths = candidate_paths(&known_clients(), Platform::Unix, &home, None);
    let planted = |client: &str| match client {
        "Cursor" => Some(r#"{"mcpServers":{"files":{"command":"npx"}}}"#.to_string()),
        // A client's own settings file routinely has no MCP servers at all.
        "Windsurf" => Some(r#"{"theme":"dark"}"#.to_string()),
        _ => None,
    };
    let texts: Vec<Option<String>> = paths.iter().map(|(client, _)| planted(client)).collect();
    assert_eq!(texts.iter().flatten().count(), 2);

    let found = scan(read_files(paths, texts));

    assert_eq!(found.len(), 1, "only the file with servers is offered");
    assert_eq!(found[0].client, "Cursor");
    assert_eq!(found[0].path, "/home/u/.cursor/mcp.json");
    assert_eq!(found[0].parsed.candidates()[0].name, "files");
}

fn stub(name: &str) -> ImportCandidate {
    ImportCandidate {
        name: name.into(),
        command: "npx".into(),
        args: Vec::new(),
        cwd: None,
        env: StrMap::new(),
        secret_keys: Vec::new(),
        notes: Vec::new(),
        conflicts: false,
    }
}

#[test]
fn conflicts_are_flagged_against_existing_names() {
    let mut candidates = vec![stub("files"), stub("memory")];
    let existing = names(&["files"]);
    mark_conflicts(&mut candidates, &existing);
    assert!(candidates[0].conflicts);
    assert!(!candidates[1].conflicts);
}

#[test]
fn every_platform_offers_the_home_relative_clients() {
    for platform in [Platform::MacOs, Platform::Windows, Platform::Unix] {
        let paths = candidate_paths(
            &known_clients(),
            platform,
            &PathBuf::from("/home/u"),
            Some(&PathBuf::from("/appdata")),
        );
        let clients: Vec<_> = paths.iter().map(|(client, _)| client.as_str()).collect();
        for expected in ["Cursor", "VS Code", "Windsurf"] {
            assert!(clients.contains(&expected), "missing {expected}");
        }
        assert_eq!(clients.len(), known_clients().len());
        let cursor = paths.iter().find(|(c, _)| c == "Cursor").unwrap();
        assert!(cursor.1.ends_with("mcp.json"));
        assert!(cursor.1.starts_with("/home/u"));
    }
}

#[test]
fn every_client_has_its_place() {
    let home = PathBuf::from("/home/u");
    let appdata = PathBuf::from("/appdata");
    let mut clients = known_clients();
    let below = |names: &[&str]| names.iter().map(|name| name.to_string()).collect();
    clients.extend(ClientLocation::new("A".into(), Base::AppData, below(&["A", "a.json"])));
    clients.extend(ClientLocation::new("B".into(), Base::Home, below(&[".b.json"])));
    let on_linux = vec![
        ("VS Code".to_string(), PathBuf::from("/home/u/.config/Code/User/mcp.json")),
        ("Cursor".to_string(), PathBuf::from("/home/u/.cursor/mcp.json")),
        ("Windsurf".to_string(), PathBuf::from("/home/u/.codeium/windsurf/mcp_config.json")),
        ("A".to_string(), PathBuf::from("/home/u/.config/A/a.json")),
        ("B".to_string(), PathBuf::from("/home/u/.b.json")),
    ];
    assert_eq!(candidate_paths(&clients, Platform::Unix, &home, Some(&appdata)), on_linux);
    assert_eq!(candidate_paths(&clients, Platform::Unix, &home, None), on_linux);
}

#[test]
fn a_location_has_plain_names() {
    for name in ["", ".", "..", "a/b", "a\\b", "c:"] {
        let location = ClientLocation::new("A".into(), Base::Home, vec![name.to_string()]);
        assert!(location.is_none(), "{name:?} is no plain name");
    }
    assert!(ClientLocation::new("A".into(), Base::Home, vec![".a".to_string()]).is_some());
}

#[test]
fn each_platform_has_its_own_data_directory() {
    let home = PathBuf::from("/home/u");
    let appdata = PathBuf::from("/appdata");
    let first = |platform, appdata| {
        candidate_paths(&known_clients(), platform, &home, appdata)[0].1.clone()
    };
    assert_eq!(
        first(Platform::MacOs, None),
        PathBuf::from("/home/u/Library/Application Support/Code/User/mcp.json")
    );
    assert_eq!(
        first(Platform::Windows, Some(&appdata)),
        PathBuf::from("/appdata/Code/User/mcp.json")
    );
    // Without `%APPDATA%` only the home-relative clients are left.
    let bare = candidate_paths(&known_clients(), Platform::Windows, &home, None);
    assert_eq!(bare.len(), 2);
    assert_eq!(bare[0].0, "Cursor");
    assert_eq!(bare[1].1, PathBuf::from("/home/u/.codeium/windsurf/mcp_config.json"));
}

/// Drive a run to its end: every creation succeeds with ids from 1 on, except
/// for the entries whose working directory is said not to exist.
fn run(text: &str, wanted: &[&str], taken: NameSet) -> (mcpanel::import::ImportOutcome, Vec<String>) {
    let mut run = import(
        parse(text),
        wanted.iter().map(|name| name.to_string()).collect(),
        taken,
    );
    let mut stored = Vec::new();
    let mut id = 0;
    while let Some((adding, server)) = run.next() {
        assert!(!server.auto_start, "import must never arm a server to start on launch");
        let name = adding.name().to_string();
        assert_eq!(name, server.name);
        let exists = server.cwd.is_none();
        let reply = match mcpanel::lifecycle::add(&server, exists) {
            Ok(()) => {
                id += 1;
                Ok(id)
            }
            Err(error) => Err(error),
        };
        let mut step = adding.added(reply);
        let result = loop {
            match step {
                ApplyStep::Store { storing, id, key, value } => {
                    stored.push(format!("{id}/{key}={value}"));
                    step = storing.stored(Ok(()));
                }
                ApplyStep::Rollback { rolling, .. } => step = rolling.rolled_back(),
                ApplyStep::Done(result) => break result,
            }
        };
        run.applied(name, result);
    }
    (run.finish(), stored)
}

#[test]
fn imports_selected_servers_and_leaves_the_rest() {
    let text = r#"{"mcpServers":{
        "files":{"command":"npx","args":["-y","@mcp/fs","/tmp"],"env":{"LOG":"debug"}},
        "memory":{"command":"uvx","args":["mcp-memory"]}
    }}"#;
    let mut run = import(parse(text), vec!["files".into()], NameSet::new());
    let (adding, server) = run.next().expect("one entry is due");
    assert_eq!(server.name, "files");
    assert_eq!(server.command, "npx");
    assert_eq!(server.args, ["-y", "@mcp/fs", "/tmp"]);
    assert_eq!(
        server.env.get("LOG"),
        Some(&EnvValue::Plain { value: "debug".into() })
    );
    assert!(!server.auto_start);
    match adding.added(Ok(1)) {
        ApplyStep::Done(Ok(id)) => run.applied("files".into(), Ok(id)),
        _ => panic!("nothing to store"),
    }
    assert!(run.next().is_none(), "unselected entries must not be imported");
    let outcome = run.finish();
    assert_eq!(outcome.failed, vec![]);
    assert_eq!(outcome.imported.len(), 1);
    assert_eq!(outcome.imported[0].name, "files");
}

#[test]
fn a_name_collision_is_suffixed_not_rejected() {
    let text = r#"{"mcpServers":{"files":{"command":"npx"}}}"#;
    let mut existing: Vec<&str> = Vec::new();
    for expected in ["files", "files (2)", "files (3)"] {
        let (outcome, _) = run(text, &["files"], names(&existing));
        assert_eq!(outcome.failed, vec![]);
        assert_eq!(outcome.imported[0].name, expected);
        // The source name is reported unchanged, so the UI can be honest
        // about the rename.
        assert_eq!(outcome.imported[0].source_name, "files");
        existing.push(expected);
    }
    assert_eq!(existing.len(), 3);
}

#[test]
fn one_failure_does_not_abort_the_run() {
    let text = r#"{"mcpServers":{
        "a":{"command":"npx"},
        "b":{"command":"npx","cwd":"/nonexistent/mcpanel/test/dir"},
        "c":{"command":"npx"}
    }}"#;
    let (outcome, _) = run(text, &["a", "b", "c", "ghost"], NameSet::new());
    let imported: Vec<_> = outcome.imported.iter().map(|s| s.name.as_str()).collect();
    assert_eq!(imported, ["a", "c"]);
    assert_eq!(outcome.failed.len(), 2);
    assert!(outcome
        .failed
        .iter()
        .any(|f| f.name == "b" && f.reason.contains("working directory")));
    assert!(outcome
        .failed
        .iter()
        .any(|f| f.name == "ghost" && f.reason.contains("no longer present")));
}

#[test]
fn a_name_asked_for_twice_is_imported_twice_under_its_own_names() {
    let text = r#"{"mcpServers":{"a":{"command":"npx"}}}"#;
    let (outcome, _) = run(text, &["a", "a"], NameSet::new());
    let imported: Vec<_> = outcome.imported.iter().map(|s| s.name.as_str()).collect();
    assert_eq!(imported, ["a", "a (2)"]);
}

#[test]
fn reading_a_named_file_reports_conflicts_and_skips() {
    let text = r#"{"mcpServers":{
        "files":{"command":"npx"},
        "hosted":{"url":"https://example.test/mcp"}
    }}"#;
    let discovered = match read_file("mcp.json".into(), Ok(text.to_string()), &names(&["files"])) {
        Ok(discovered) => discovered,
        Err(error) => panic!("{error:?}"),
    };
    assert_eq!(discovered.client, "file");
    assert_eq!(discovered.servers.len(), 1);
    assert!(
        discovered.servers[0].conflicts,
        "an already-imported name must be flagged"
    );
    assert_eq!(discovered.skipped.len(), 1);
    assert!(discovered.skipped[0].reason.contains("stdio only"));
}

#[test]
fn a_missing_or_malformed_file_is_an_error_when_named_explicitly() {
    let missing = read_file(
        "absent.json".into(),
        Err(AppError::Io("No such file or directory".into())),
        &NameSet::new(),
    );
    assert_eq!(missing.err().unwrap().code(), "io");

    let junk = read_file("junk.json".into(), Ok("{ not json".into()), &NameSet::new());
    assert_eq!(junk.err().unwrap().code(), "json");
}

#[test]
fn credentials_move_into_the_keyring_not_the_database() {
    let text = r#"{"mcpServers":{"gh":{"command":"npx","env":{
        "GITHUB_TOKEN":"ghp_live_value",
        "LOG_LEVEL":"debug"
    }}}}"#;
    let mut pending = import(parse(text), vec!["gh".into()], NameSet::new());
    let (_, server) = pending.next().expect("one entry is due");
    assert_eq!(server.env.get("GITHUB_TOKEN"), Some(&EnvValue::Secret));
    assert_eq!(
        server.env.get("LOG_LEVEL"),
        Some(&EnvValue::Plain { value: "debug".into() })
    );
    // The token itself must be nowhere in the persisted row.
    let row = mcpanel::db::insert_server(&server, 1);
    assert!(!format!("{row:?}").contains("ghp_live_value"));

    let (outcome, stored) = run(text, &["gh"], NameSet::new());
    assert_eq!(outcome.failed, vec![]);
    assert_eq!(outcome.imported[0].secrets_stored, 1);
    assert_eq!(stored, ["1/GITHUB_TOKEN=ghp_live_value"]);
}

#[test]
fn a_store_failure_takes_the_server_back() {
    let text = r#"{"mcpServers":{"gh":{"command":"npx","env":{"A_TOKEN":"1","B_TOKEN":"2"}}}}"#;
    let mut run = import(parse(text), vec!["gh".into()], NameSet::new());
    let (adding, _) = run.next().expect("one entry is due");
    let name = adding.name().to_string();
    let storing = match adding.added(Ok(9)) {
        ApplyStep::Store { storing, id, key, value } => {
            assert_eq!((id, key.as_str(), value.as_str()), (9, "A_TOKEN", "1"));
            storing
        }
        _ => panic!("a credential is due"),
    };
    let storing = match storing.stored(Ok(())) {
        ApplyStep::Store { storing, key, .. } => {
            assert_eq!(key, "B_TOKEN");
            storing
        }
        _ => panic!("another credential is due"),
    };
    let rolling = match storing.stored(Err(AppError::Keyring("locked".into()))) {
        ApplyStep::Rollback { rolling, id } => {
            assert_eq!(id, 9);
            rolling
        }
        _ => panic!("the server must be taken back"),
    };
    match rolling.rolled_back() {
        ApplyStep::Done(result) => run.applied(name, result),
        _ => panic!("nothing else is due"),
    }
    let outcome = run.finish();
    assert_eq!(outcome.imported, vec![]);
    assert_eq!(outcome.failed[0].reason, "credential store error: locked");
}

#[test]
fn discovery_flags_each_file_on_its_own() {
    let file = |client: &str, text: &str| ReadFile {
        client: client.into(),
        path: format!("/{client}"),
        text: Some(text.into()),
    };
    let found = scan(vec![
        file("one", r#"{"mcpServers":{"a":{"command":"x"}}}"#),
        file("two", r#"{"mcpServers":{}}"#),
        file("three", r#"{"servers":{"b":{"command":"x"},"c":7}}"#),
    ]);
    let discovered = discover(found, &names(&["b"]));
    assert_eq!(discovered.len(), 2);
    assert_eq!(discovered[0].client, "one");
    assert!(!discovered[0].servers[0].conflicts);
    assert_eq!(discovered[1].path, "/three");
    assert!(discovered[1].servers[0].conflicts);
    assert_eq!(discovered[1].skipped[0].reason, "entry is not an object");
}
