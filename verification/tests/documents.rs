use lst::cli::sync_server_url;
use lst::commands::{normalize_list_on, normalize_note_on};
use lst::config::{Config, State};
use lst::crypto::{
    decrypt, encrypt, expand_key_path, key_from_file_bytes, master_key_path_in, mobile_master_key_path_in,
    resolve_key_path, resolve_mobile_key_path, CryptoError,
};
use lst::frontends::{
    apply_theme, get_current_theme, list_themes, AddToListTool, ListListsTool, MarkDoneTool,
    MarkUndoneTool, MobileConfig, MobileStorageConfig, MobileSyncConfig, MobileSyncdConfig, MyServerHandler,
};
use lst::parse::{
    build_http_url, build_websocket_url, detect_doc_type, normalize_ws_url, parse_item_input,
    parse_item_with_category, parse_note_frontmatter,
};
use lst::server_config::{smtp_pass_variable, DatabaseSettings, PathError, Settings};
use lst::sorted::{sorted_unique, text_is_before};
use lst::status::{
    mark_sync_connected, mark_sync_disconnected, sync_enabled, update_pending_changes, SyncStatusTracker,
};
use lst::storage::{
    collects_file, descends_into, get_note_path, list_lists, list_lists_with_info, list_notes, load_note,
    resolve_entry, resolve_list_path, resolve_note_path, slugify, FileEntry, ResolveError,
};
use lst::sync::{
    canonical_path_with_id, canonicalize_doc_path, detect_kind, list_items_of, normalize_relative_path,
    path_from_server_filename, uuid_from_relative_path, DocumentKind, ServerPathError,
};
use lst::theme::{ThemeDirListing, ThemeLoader};

fn oid_uuid(name: &str) -> String {
    uuid::Uuid::new_v5(&uuid::Uuid::NAMESPACE_OID, name.as_bytes()).to_string()
}

fn strings(v: &[&str]) -> Vec<String> {
    v.iter().map(|s| s.to_string()).collect()
}

// ---- documents as the sync layer sees them ----

#[test]
fn kind_names_roundtrip() {
    assert_eq!(DocumentKind::List.as_str(), "list");
    assert_eq!(DocumentKind::Note.as_str(), "note");
    assert_eq!(DocumentKind::from_str(DocumentKind::List.as_str()), DocumentKind::List);
    assert_eq!(DocumentKind::from_str(DocumentKind::Note.as_str()), DocumentKind::Note);
    assert_eq!(DocumentKind::from_str("whatever"), DocumentKind::Note);
}

#[test]
fn relative_paths_use_forward_slashes() {
    assert_eq!(normalize_relative_path("\\lists\\a.md"), "lists/a.md");
    assert_eq!(normalize_relative_path("//notes/x.md"), "notes/x.md");
    assert_eq!(normalize_relative_path("plain.md"), "plain.md");
}

#[test]
fn kinds_follow_the_directory() {
    assert_eq!(detect_kind("lists/groceries.md"), DocumentKind::List);
    assert_eq!(detect_kind("lists"), DocumentKind::List);
    assert_eq!(detect_kind("notes/a.md"), DocumentKind::Note);
    assert_eq!(detect_kind("listsx/a.md"), DocumentKind::Note);
    assert_eq!(detect_kind("daily.md"), DocumentKind::Note);
}

#[test]
fn document_ids_are_oid_uuids_of_the_path() {
    let id = uuid_from_relative_path("lists/a.md");
    assert_eq!(id.len(), 36);
    assert_eq!(id, oid_uuid("lists/a.md"));
    assert_eq!(uuid_from_relative_path("lists\\a.md"), id);
    assert_ne!(uuid_from_relative_path("lists/b.md"), id);
}

#[test]
fn canonical_paths() {
    let c = canonicalize_doc_path("lists/a.md", "/content");
    assert_eq!(c.full_path, "/content/lists/a.md");
    assert_eq!(c.relative_path, "lists/a.md");
    assert_eq!(c.kind, DocumentKind::List);

    let c = canonicalize_doc_path("/content/notes/b.md", "/content");
    assert_eq!(c.full_path, "/content/notes/b.md");
    assert_eq!(c.relative_path, "notes/b.md");
    assert_eq!(c.kind, DocumentKind::Note);

    let c = canonicalize_doc_path("/elsewhere/c.md", "/content");
    assert_eq!(c.full_path, "/elsewhere/c.md");
    assert_eq!(c.relative_path, "elsewhere/c.md");
    assert_eq!(c.kind, DocumentKind::Note);

    let (c, id) = canonical_path_with_id("lists/a.md", "/content");
    assert_eq!(c.document_id(), id);
    assert_eq!(id, oid_uuid("lists/a.md"));
}

#[test]
fn server_paths() {
    assert!(matches!(path_from_server_filename("", "/c"), Err(ServerPathError::EmptyRelativePath)));
    let p = path_from_server_filename("lists/x.md", "/c").unwrap();
    assert_eq!(p.full_path, "/c/lists/x.md");
    assert_eq!(p.relative_path, "lists/x.md");
    assert_eq!(p.kind, DocumentKind::List);
}

#[test]
fn list_documents_keep_trimmed_lines() {
    assert_eq!(list_items_of("  milk \n\n bread\n"), strings(&["milk", "bread"]));
    assert!(list_items_of("").is_empty());
}

// ---- files on disk ----

fn note_entries() -> Vec<FileEntry> {
    vec![
        FileEntry { name: "groceries".into(), relative_path: "groceries".into(), full_path: "/n/groceries.md".into() },
        FileEntry { name: "pharmacy".into(), relative_path: "errands/pharmacy".into(), full_path: "/n/errands/pharmacy.md".into() },
        FileEntry { name: "todo".into(), relative_path: "todo".into(), full_path: "/n/todo.md".into() },
    ]
}

#[test]
fn list_names_are_relative_without_extension() {
    let files = strings(&["/base/a.md", "/base/groc/pharm.md", "/other/x.md"]);
    assert_eq!(list_lists("/base", &files), strings(&["a", "groc/pharm"]));
    assert_eq!(list_notes("/base", &files), strings(&["a", "groc/pharm"]));
    let info = list_lists_with_info("/base", &files);
    assert_eq!(info.len(), 2);
    assert_eq!(info[1].name, "pharm");
    assert_eq!(info[1].relative_path, "groc/pharm");
    assert_eq!(info[1].full_path, "/base/groc/pharm.md");
}

#[test]
fn walks_collect_markdown_and_skip_hidden_dirs() {
    assert!(collects_file("/x/a.md", true, "md"));
    assert!(!collects_file("/x/a.txt", true, "md"));
    assert!(!collects_file("/x/a.md", false, "md"));
    assert!(!descends_into(".git"));
    assert!(descends_into("notes"));
}

#[test]
fn names_resolve_exactly_then_by_containment() {
    let entries = note_entries();
    assert_eq!(resolve_entry("todo", &entries).unwrap(), "/n/todo.md");
    assert_eq!(resolve_entry("pharm", &entries).unwrap(), "/n/errands/pharmacy.md");
    match resolve_entry("o", &entries) {
        Err(ResolveError::Ambiguous(paths)) => assert_eq!(paths, strings(&["groceries", "todo"])),
        other => panic!("expected an ambiguity, got {:?}", other),
    }
    assert!(matches!(resolve_entry("zzz", &entries), Err(ResolveError::DoesNotExist)));
}

#[test]
fn slugs_lower_case_and_dash() {
    assert_eq!(slugify("Hello, World!"), "hello--world");
    assert_eq!(slugify("  Trip Plan "), "trip-plan");
    assert_eq!(slugify("---"), "");
}

#[test]
fn note_paths() {
    let entries = note_entries();
    assert_eq!(get_note_path("todo", "/n", &entries), "/n/todo.md");
    assert_eq!(get_note_path("New Idea", "/n", &entries), "/n/new-idea.md");
    assert_eq!(get_note_path("ideas/today", "/n", &entries), "/n/ideas/today.md");
    assert_eq!(load_note("ideas/today", "/n", &entries, true).unwrap(), "/n/ideas/today.md");
    assert!(matches!(load_note("ideas/today", "/n", &entries, false), Err(ResolveError::DoesNotExist)));
    assert_eq!(load_note("groc", "/n", &entries, false).unwrap(), "/n/groceries.md");
    assert!(load_note("nothing", "/n", &entries, false).is_err());
}

#[test]
fn list_paths() {
    let entries = note_entries();
    assert_eq!(resolve_list_path("groceries", "/l", true, &entries).unwrap(), "/l/groceries.md");
    assert_eq!(resolve_list_path("pharmacy", "/l", false, &entries).unwrap(), "/n/errands/pharmacy.md");
    assert!(matches!(resolve_list_path("a/b", "/l", false, &entries), Err(ResolveError::DoesNotExist)));
}

// ---- sync status ----

#[test]
fn sync_status_over_time() {
    let mut t = SyncStatusTracker::new(100);
    let s = t.get_sync_status(true, 150);
    assert!(!s.connected);
    assert_eq!(s.pending_changes, 0);
    assert!(s.error.is_none());

    mark_sync_connected(&mut t, 200);
    let s = t.get_sync_status(true, 250);
    assert!(s.connected);
    assert!(s.last_sync.is_some());
    assert!(s.error.is_none());

    let s = t.get_sync_status(true, 200 + 121);
    assert!(!s.connected);
    assert_eq!(s.error.as_deref(), Some("Status outdated"));
    assert!(s.last_sync.is_some());

    let s = t.get_sync_status(false, 250);
    assert!(!s.connected);
    assert_eq!(s.error.as_deref(), Some("Sync not configured"));
    assert!(s.last_sync.is_none());

    mark_sync_disconnected(&mut t, "boom".to_string(), 300);
    let s = t.get_sync_status(true, 300);
    assert!(!s.connected);
    assert_eq!(s.error.as_deref(), Some("boom"));
    assert!(s.last_sync.is_some());

    update_pending_changes(&mut t, 5, 310);
    let s = t.get_sync_status(true, 310);
    assert_eq!(s.pending_changes, 5);
    assert!(!s.connected);
    assert_eq!(s.error.as_deref(), Some("boom"));
}

#[test]
fn sync_needs_url_and_login() {
    assert!(sync_enabled(Some("http://x"), true));
    assert!(!sync_enabled(Some(""), true));
    assert!(!sync_enabled(None, true));
    assert!(!sync_enabled(Some("http://x"), false));
}

// ---- server settings ----

#[test]
fn server_defaults() {
    let s = Settings::default();
    assert_eq!(s.server.host, "127.0.0.1");
    assert_eq!(s.server.port, 5673);
    assert_eq!(s.database.data_dir, "~/.local/share/lst/lst_server_data");
    assert_eq!(s.database.tokens_db, "tokens.db");
    assert_eq!(s.database.content_db, "content.db");
    assert_eq!(s.database.sync_db, "sync.db");
}

#[test]
fn database_paths() {
    let mut d = DatabaseSettings::default();
    assert_eq!(d.data_dir_with_home(Some("/home/u")).unwrap(), "/home/u/.local/share/lst/lst_server_data");
    assert_eq!(d.data_dir_with_home(None), Err(PathError::NoHomeDirectory));
    assert_eq!(
        d.db_path_with_home("tokens.db", Some("/home/u")).unwrap(),
        "/home/u/.local/share/lst/lst_server_data/tokens.db"
    );
    assert_eq!(d.db_path_with_home("/abs/t.db", Some("/home/u")).unwrap(), "/abs/t.db");
    d.data_dir = "/srv/lst".to_string();
    assert_eq!(d.resolve_data_dir().unwrap(), "/srv/lst");
    assert_eq!(d.tokens_db_path().unwrap(), "/srv/lst/tokens.db");
    assert_eq!(d.content_db_path().unwrap(), "/srv/lst/content.db");
    assert_eq!(d.sync_db_path().unwrap(), "/srv/lst/sync.db");
}

#[test]
fn smtp_password_variables() {
    assert_eq!(smtp_pass_variable("${SMTP_PASS}").as_deref(), Some("SMTP_PASS"));
    assert_eq!(smtp_pass_variable("plain"), None);
    assert_eq!(smtp_pass_variable("${x"), None);
}

// ---- encryption ----

#[test]
fn encrypt_roundtrip() {
    let key = [42u8; 32];
    let msg = b"hello";
    let ct = encrypt(msg, &key).unwrap();
    let pt = decrypt(&ct, &key).unwrap();
    assert_eq!(pt, msg);
}

#[test]
fn ciphertexts_carry_a_nonce_and_hide_the_text() {
    let key = [7u8; 32];
    let ct = encrypt(b"hello", &key).unwrap();
    assert_eq!(ct.len(), 24 + 5 + 16);
    assert_ne!(&ct[24..29], b"hello");
}

#[test]
fn decryption_errors() {
    let key = [42u8; 32];
    assert_eq!(decrypt(&[0u8; 10], &key), Err(CryptoError::CiphertextTooShort));
    let ct = encrypt(b"hello", &key).unwrap();
    assert_eq!(decrypt(&ct, &[1u8; 32]), Err(CryptoError::DecryptionFailed));
}

#[test]
fn key_files() {
    let raw = [5u8; 32];
    assert_eq!(key_from_file_bytes(&raw).unwrap(), raw.to_vec());
    let encoded = b"BQUFBQUFBQUFBQUFBQUFBQUFBQUFBQUFBQUFBQUFBQU=";
    assert_eq!(key_from_file_bytes(encoded).unwrap(), raw.to_vec());
    assert_eq!(key_from_file_bytes(b"AAAA"), Err(CryptoError::InvalidKeyLength));
    assert_eq!(key_from_file_bytes(b"not base64!"), Err(CryptoError::InvalidKeyEncoding));
}

#[test]
fn key_references() {
    assert_eq!(resolve_key_path("/keys/k"), Ok("/keys/k".to_string()));
    assert_eq!(resolve_mobile_key_path("/keys/k", "/tmp"), "/keys/k");
    if let Ok(p) = resolve_key_path("lst-master-key") {
        assert!(p.ends_with("/lst/lst-master-key"));
    }
    assert!(resolve_mobile_key_path("lst-master-key", "/tmp").ends_with("/lst-mobile/lst-master-key"));
    assert_eq!(
        master_key_path_in(Some("/data"), Some("/home/u")),
        Ok("/data/lst/lst-master-key".to_string())
    );
    assert_eq!(
        master_key_path_in(None, Some("/home/u")),
        Ok("/home/u/.local/share/lst/lst-master-key".to_string())
    );
    assert_eq!(master_key_path_in(None, None), Err(CryptoError::NoKeyDirectory));
    assert_eq!(mobile_master_key_path_in(Some("/data"), "/tmp"), "/data/lst-mobile/lst-master-key");
    assert_eq!(mobile_master_key_path_in(None, "/tmp"), "/tmp/lst-mobile/lst-master-key");
    assert_eq!(expand_key_path("~/keys/k", Some("/home/u")).as_deref(), Some("/home/u/keys/k"));
    assert_eq!(expand_key_path("~/keys/k", None), None);
    assert_eq!(expand_key_path("/keys/k", None).as_deref(), Some("/keys/k"));
}

// ---- configuration and state ----

#[test]
fn config_defaults() {
    let c = Config::default();
    assert_eq!(c.fuzzy.threshold, 50);
    assert_eq!(c.fuzzy.max_suggestions, 7);
    assert_eq!(c.ui.leader_key, " ");
    assert_eq!(c.ui.resolution_order, strings(&["anchor", "exact", "fuzzy", "index", "interactive"]));
    assert_eq!(c.content_dir_with_home("/home/u"), "/home/u/lst/content");
}

#[test]
fn sync_setup_fills_defaults_once() {
    let mut c = Config::default();
    assert!(!c.init_sync_with(None));
    assert!(c.sync.is_none());
    assert!(c.init_sync_with(Some("/cfg")));
    let s = c.sync.clone().unwrap();
    assert_eq!(s.interval_seconds, 30);
    assert_eq!(s.max_file_size, 10 * 1024 * 1024);
    assert_eq!(s.encryption_key_ref.as_deref(), Some("lst-master-key"));
    assert_eq!(s.exclude_patterns, strings(&[".*", "*.tmp", "*.swp"]));
    assert_eq!(c.storage.clone().unwrap().crdt_dir, "/cfg/lst/crdt");
    assert!(c.init_sync_with(None));
}

#[test]
fn syncd_setup_fills_defaults_once() {
    let mut c = Config::default();
    assert!(!c.init_syncd_with(None));
    assert!(c.syncd.is_none());
    assert!(c.init_syncd_with(Some("/cfg")));
    let d = c.syncd.clone().unwrap();
    assert_eq!(d.database_path.as_deref(), Some("/cfg/lst/syncd.db"));
    assert_eq!(d.encryption_key_ref.as_deref(), Some("lst-master-key"));
    assert_eq!(d.device_id.as_ref().map(|id| id.len()), Some(36));
    assert!(d.url.is_none() && d.auth_token.is_none());
    assert_eq!(c.storage.clone().unwrap().crdt_dir, "/cfg/lst/crdt");
    let s = c.sync.clone().unwrap();
    assert_eq!(s.interval_seconds, 30);
    assert_eq!(s.exclude_patterns, strings(&[".*", "*.tmp", "*.swp"]));
    assert!(c.init_syncd_with(None));
    assert_eq!(c.syncd.clone().unwrap().device_id, d.device_id);
}

#[test]
fn jwt_validity_and_refresh() {
    let mut s = State::default();
    assert!(!s.is_jwt_valid_at(0));
    s.store_jwt("token".to_string(), 1000);
    assert!(s.is_jwt_valid_at(999));
    assert!(!s.is_jwt_valid_at(1000));
    assert_eq!(s.get_jwt_at(10).as_deref(), Some("token"));
    assert_eq!(s.get_jwt_at(2000), None);
    assert!(!s.needs_jwt_refresh_at(600));
    assert!(s.needs_jwt_refresh_at(701));
    s.clear_jwt();
    assert!(!s.is_jwt_valid_at(0));
    assert!(s.needs_jwt_refresh_at(0));
    s.store_jwt(String::new(), 1000);
    assert!(!s.is_jwt_valid_at(0));
}

#[test]
fn state_fills_device_and_database() {
    let mut s = State::default();
    assert!(s.init_with_home(Some("/home/u")));
    let id = s.device.device_id.clone().unwrap();
    assert_eq!(s.sync.database_path.as_deref(), Some("/home/u/.local/share/lst/sync.db"));
    assert_eq!(s.ensure_device_id(), id);
    let mut t = State::default();
    assert!(!t.init_with_home(None));
    assert!(t.device.device_id.is_some());
}

// ---- parsing ----

#[test]
fn item_input_with_category() {
    assert_eq!(parse_item_input("##fruit apples"), (Some("fruit".to_string()), "apples".to_string()));
    assert_eq!(parse_item_input("## apples"), (None, "## apples".to_string()));
    assert_eq!(parse_item_input("plain"), (None, "plain".to_string()));
    assert_eq!(parse_item_with_category("##a b c"), (Some("a".to_string()), "b c".to_string()));
    assert_eq!(parse_item_with_category("##nospace"), (None, "##nospace".to_string()));
}

#[test]
fn websocket_urls() {
    assert_eq!(normalize_ws_url("http://host:5673"), "ws://host:5673/api/sync");
    assert_eq!(normalize_ws_url("https://host/"), "wss://host/api/sync");
    assert_eq!(normalize_ws_url("ws://host/api/sync"), "ws://host/api/sync");
    for url in ["http://a/http:/", "xhttps://y", "http:/", "https://h/api/sync/"] {
        let once = normalize_ws_url(url);
        assert!(once.ends_with("/api/sync"));
        assert!(!once.contains("http://") && !once.contains("https://"));
        assert_eq!(normalize_ws_url(&once), once);
    }
    assert_eq!(build_http_url("localhost", 5673), "http://localhost:5673");
    assert_eq!(build_websocket_url("localhost", 80), "ws://localhost:80/api/sync");
    assert_eq!(sync_server_url("host:5673").as_deref(), Some("ws://host:5673/api/sync"));
    assert_eq!(sync_server_url("https://host").as_deref(), Some("https://host"));
    assert_eq!(sync_server_url(""), None);
}

#[test]
fn document_types() {
    assert_eq!(detect_doc_type("/c/lists/a.md"), "list");
    assert_eq!(detect_doc_type("/c/daily_lists/x.md"), "list");
    assert_eq!(detect_doc_type("/c/notes/a.md"), "note");
}

#[test]
fn note_frontmatter() {
    let (title, created, body) =
        parse_note_frontmatter("---\ntitle: \"My Note\"\ncreated: 2024-01-01\n---\n\n  Body line\nmore", "fallback");
    assert_eq!(title, "My Note");
    assert_eq!(created.as_deref(), Some("2024-01-01"));
    assert_eq!(body, "Body line\nmore");
    let (title, created, body) = parse_note_frontmatter("no frontmatter", "fallback");
    assert_eq!(title, "fallback");
    assert_eq!(created, None);
    assert_eq!(body, "no frontmatter");
}

#[test]
fn daily_names() {
    assert_eq!(normalize_list_on("dl", "20240102"), "daily_lists/20240102_daily_list");
    assert_eq!(normalize_list_on("groceries.md", "20240102"), "groceries");
    assert_eq!(normalize_note_on("dn", "20240102"), "daily_notes/20240102_daily_note");
    assert_eq!(normalize_note_on("idea.md.md", "20240102"), "idea");
}

// ---- themes offered to the apps ----

#[test]
fn test_default_theme_is_nord() {
    let theme_data = get_current_theme();
    if let Some(name) = &theme_data.name {
        assert!(name.to_lowercase().contains("nord"), "Expected theme name to contain 'nord', got: {}", name);
    }
    assert!(!theme_data.css_variables.is_empty(), "CSS variables should not be empty");
    assert!(!theme_data.scheme.is_empty(), "Scheme should not be empty");
}

#[test]
fn test_nord_theme_loads_correctly() {
    let theme_data = apply_theme("base16-nord", &Vec::new(), Vec::new()).expect("Should load Nord theme");
    assert!(theme_data.name.is_some(), "Nord theme should have a name");
    assert_eq!(theme_data.scheme, "base16-nord", "Scheme should be base16-nord");
    assert!(!theme_data.css_variables.is_empty(), "CSS variables should be generated");
}

#[test]
fn test_theme_list_includes_nord() {
    let themes = list_themes(&Vec::new());
    assert!(themes.contains(&"base16-nord".to_string()), "Available themes should include 'base16-nord'");
    assert!(!themes.is_empty(), "Should have at least one theme");
}

#[test]
fn unknown_themes_are_not_applied() {
    assert!(apply_theme("no-such-theme", &Vec::new(), Vec::new()).is_err());
}

#[test]
fn theme_lists_are_sorted_and_unique() {
    let loader = ThemeLoader::with_config(Some("/t".to_string()));
    let listing = ThemeDirListing {
        entries: strings(&["zen.toml", "base16-nord.toml", "notes.txt", "old.toml.toml"]),
        base16: strings(&["ocean.yaml", "nord.yml", "readme.md"]),
        base24: strings(&["dracula.yaml"]),
    };
    let names = loader.list_themes(&vec![listing]);
    let mut expected = strings(&[
        "base16-catppuccin-mocha",
        "base16-default-dark",
        "base16-default-light",
        "base16-everforest",
        "base16-nord",
        "base16-ocean",
        "base16-tokyo-night-dark",
        "base24-dracula",
        "catppuccin-mocha",
        "old",
        "zen",
    ]);
    expected.sort();
    assert_eq!(names, expected);
}

#[test]
fn sorting_names() {
    assert!(text_is_before("a", "b"));
    assert!(text_is_before("ab", "abc"));
    assert!(!text_is_before("b", "a"));
    assert!(!text_is_before("a", "a"));
    assert_eq!(sorted_unique(&strings(&["b", "a", "b", "c", "a"])), strings(&["a", "b", "c"]));
}

// ---- mobile and assistant front ends ----

#[test]
fn mobile_sync_settings() {
    let mut c = MobileSyncConfig::new();
    assert!(!c.is_sync_configured());
    c.store_jwt("t".to_string(), 100);
    assert!(c.is_jwt_valid_at(99));
    assert!(!c.is_jwt_valid_at(100));
    let d = MobileSyncdConfig::new("ws://h/api/sync".to_string(), "dev".to_string(), "/app", "/app/key".to_string());
    assert_eq!(d.database_path.as_deref(), Some("/app/sync.db"));
    assert_eq!(MobileStorageConfig::in_app_dir("/app").crdt_dir, "/app/crdt");
    let mut m = MobileConfig::default();
    assert!(!m.has_syncd());
    m.setup_sync(d);
    assert!(m.has_syncd());
    assert_eq!(m.sync_settings.clone().unwrap().interval_seconds, 30);
}

#[test]
fn test_list_lists_tool() {
    let tool = ListListsTool {};
    let answer = tool.answer(&Vec::new());
    assert_eq!(answer.as_deref(), Some("No lists found."));
    let answer = tool.answer(&strings(&["groceries", "todo"])).unwrap();
    assert_eq!(answer, "[\"groceries\",\"todo\"]");
}

#[test]
fn assistant_answers() {
    let add = AddToListTool { list: "groceries".into(), item: "milk".into() };
    assert_eq!(add.success_text(), "Added 'milk' to list 'groceries'");
    let done = MarkDoneTool { list: "todo".into(), target: "task1".into() };
    assert_eq!(done.success_text(), "Marked 'task1' as done in list 'todo'");
    let undone = MarkUndoneTool { list: "todo".into(), target: "#2".into() };
    assert_eq!(undone.success_text(), "Marked '#2' as undone in list 'todo'");
    assert_eq!(MyServerHandler {}.tool_names(), vec!["list_lists", "add_to_list", "mark_done", "mark_undone"]);
}

#[test]
fn saved_notes_read_back() {
    let content = "---\ntitle: \"Groceries for \"the\" week\"\ncreated: 2024-01-02T03:04:05Z\n---\n\nmilk\n\nbread";
    let (t, c, b) = parse_note_frontmatter(content, "fallback");
    assert_eq!(t, "Groceries for \"the\" week");
    assert_eq!(c.as_deref(), Some("2024-01-02T03:04:05Z"));
    assert_eq!(b, "milk\n\nbread");
    let (t, c, b) = parse_note_frontmatter("no frontmatter", "fallback");
    assert_eq!((t.as_str(), c, b.as_str()), ("fallback", None, "no frontmatter"));
}

#[test]
fn encrypted_data_is_forty_bytes_longer() {
    let key = [42u8; 32];
    for msg in [&b""[..], b"hello", &[7u8; 100][..]] {
        let ct = encrypt(msg, &key).unwrap();
        assert_eq!(ct.len(), msg.len() + 40);
        assert_eq!(decrypt(&ct, &key).unwrap(), msg.to_vec());
    }
}

#[test]
fn unresolved_note_titles_say_why() {
    let entries = vec![
        FileEntry { name: "ideas".into(), relative_path: "ideas.md".into(), full_path: "/n/ideas.md".into() },
        FileEntry { name: "idea-box".into(), relative_path: "sub/idea-box.md".into(), full_path: "/n/sub/idea-box.md".into() },
    ];
    assert_eq!(resolve_note_path("ideas", &entries).ok().as_deref(), Some("/n/ideas.md"));
    assert_eq!(resolve_note_path("box", &entries).ok().as_deref(), Some("/n/sub/idea-box.md"));
    assert!(matches!(resolve_note_path("zzz", &entries), Err(ResolveError::DoesNotExist)));
    match resolve_note_path("idea", &entries) {
        Err(ResolveError::Ambiguous(paths)) => assert_eq!(paths, vec!["ideas.md", "sub/idea-box.md"]),
        other => panic!("unexpected {:?}", other),
    }
}
