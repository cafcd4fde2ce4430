use argon2::password_hash::{PasswordHasher, SaltString};
use sha2::Digest;

use lst::cli::{parse_server_config, ServerAddressError};
use lst::crypto::{
    derive_key_from_credentials, key_file_text, key_from_file_bytes, load_or_derive_key_from_credentials,
    CryptoError,
};
use lst::edit::{EditError, FindError};
use lst::list::{ItemStatus, List};
use lst::list_ops::{
    add_items_with_categories, create_category, delete_category, display_rows, edit_anchored_item,
    find_item_index, get_categories, move_anchored_item_to_category, move_item_to_category, new_list_named,
    pipe_items, remove_item, remove_matching_item, rename_category, reorder_matching_item,
    toggle_anchored_item, toggle_item, AnchorError, CategoryError, DisplayRow,
};
use lst::markdown::{list_to_markdown, parse_items};
use lst::notes::{
    append_note_text, document_title, grep_matches, line_count, new_note_text, parse_grep_line,
    search_note_names, split_note, tidied_note_text, tidy_note_parts, word_count,
};
use lst::resolve::{resolve_list, resolve_note, NameError};
use lst::server::{
    bearer_token, check_content_address, generate_token, session_claims, session_token, verify_login, jwt_expiry, ContentAddressError, login_email_body, login_token_expiry, login_token_text, login_token_valid,
    login_url,
};
use lst::storage::FileEntry;
use lst::sync::DocumentKind;
use lst::syncd::{extract_filename_from_content, generate_file_path_for_document, mobile_document_placement};

const SAMPLE: &str = "- [ ] milk  ^milk1\n- [x] bread  ^brd22\n\n## Fruit\n- [ ] apples  ^app33\n- [ ] pears  ^pear4\n\n## Tools\n- [X] hammer  ^hamm5\n";

fn sample() -> List {
    let mut list = List::new("groceries".to_string());
    parse_items(&mut list, SAMPLE);
    list
}

fn names(list: &List) -> Vec<String> {
    get_categories(list)
}

fn uncat(list: &List) -> Vec<String> {
    list.uncategorized_items.iter().map(|i| i.text.clone()).collect()
}

fn cat_items(list: &List, name: &str) -> Vec<String> {
    list.categories
        .iter()
        .find(|c| c.name == name)
        .map(|c| c.items.iter().map(|i| i.text.clone()).collect())
        .unwrap_or_default()
}

fn strings(v: &[&str]) -> Vec<String> {
    v.iter().map(|s| s.to_string()).collect()
}

// ---- categories ----

#[test]
fn categories_are_created_once() {
    let mut list = sample();
    assert_eq!(names(&list), strings(&["Fruit", "Tools"]));
    assert_eq!(create_category(&mut list, "Fruit"), Err(CategoryError::AlreadyExists));
    assert_eq!(create_category(&mut list, "Dairy"), Ok(()));
    assert_eq!(names(&list), strings(&["Fruit", "Tools", "Dairy"]));
    assert!(cat_items(&list, "Dairy").is_empty());
}

#[test]
fn categories_are_renamed() {
    let mut list = sample();
    assert_eq!(rename_category(&mut list, "Fruit", "Tools"), Err(CategoryError::AlreadyExists));
    assert_eq!(rename_category(&mut list, "Nope", "X"), Err(CategoryError::NotFound));
    assert_eq!(rename_category(&mut list, "Fruit", "Produce"), Ok(()));
    assert_eq!(names(&list), strings(&["Produce", "Tools"]));
    assert_eq!(cat_items(&list, "Produce"), strings(&["apples", "pears"]));
    assert_eq!(rename_category(&mut list, "Produce", "Fruit"), Ok(()));
    assert_eq!(names(&list), strings(&["Fruit", "Tools"]));
}

#[test]
fn deleted_categories_hand_their_items_over() {
    let mut list = sample();
    assert_eq!(delete_category(&mut list, "Nope"), Err(CategoryError::NotFound));
    assert_eq!(delete_category(&mut list, "Fruit"), Ok(()));
    assert_eq!(names(&list), strings(&["Tools"]));
    assert_eq!(uncat(&list), strings(&["milk", "bread", "apples", "pears"]));
}

#[test]
fn created_then_deleted_category_leaves_list_as_it_was() {
    let mut list = sample();
    create_category(&mut list, "Dairy").unwrap();
    delete_category(&mut list, "Dairy").unwrap();
    assert_eq!(names(&list), strings(&["Fruit", "Tools"]));
    assert_eq!(uncat(&list), strings(&["milk", "bread"]));
}

// ---- moving items ----

#[test]
fn items_move_between_categories() {
    let mut list = sample();
    assert_eq!(move_item_to_category(&mut list, "^app33", Some("Tools"), 50), Ok(()));
    assert_eq!(cat_items(&list, "Fruit"), strings(&["pears"]));
    assert_eq!(cat_items(&list, "Tools"), strings(&["hammer", "apples"]));
    assert_eq!(move_item_to_category(&mut list, "milk", None, 50), Ok(()));
    assert_eq!(uncat(&list), strings(&["bread", "milk"]));
    assert_eq!(move_item_to_category(&mut list, "pears", Some("Dairy"), 50), Ok(()));
    assert_eq!(names(&list), strings(&["Fruit", "Tools", "Dairy"]));
    assert_eq!(cat_items(&list, "Dairy"), strings(&["pears"]));
    assert_eq!(move_item_to_category(&mut list, "zzzzzz", None, 50), Err(FindError::NotFound));
}

#[test]
fn anchored_items_move() {
    let mut list = sample();
    assert_eq!(move_anchored_item_to_category(&mut list, "^brd22", Some("Fruit")), Ok(()));
    assert_eq!(cat_items(&list, "Fruit"), strings(&["apples", "pears", "bread"]));
    assert_eq!(move_anchored_item_to_category(&mut list, "bread", None), Err(AnchorError::NotFound));
}

// ---- lookups, toggling and removal as the apps do them ----

#[test]
fn apps_find_items() {
    let list = sample();
    assert_eq!(find_item_index(&list, "^pear4"), Some(3));
    assert_eq!(find_item_index(&list, "BREAD"), Some(1));
    assert_eq!(find_item_index(&list, "#5"), Some(4));
    assert_eq!(find_item_index(&list, "zzzzzz"), None);
}

#[test]
fn desktop_toggles_items() {
    let mut list = sample();
    toggle_item(&mut list, "milk", 50).unwrap();
    assert_eq!(list.uncategorized_items[0].status, ItemStatus::Done);
    toggle_item(&mut list, "milk", 50).unwrap();
    assert_eq!(list.uncategorized_items[0].status, ItemStatus::Todo);
    assert_eq!(toggle_item(&mut list, "zzzzzz", 50).unwrap_err(), EditError::NoMatchingItem);
}

#[test]
fn desktop_removes_items() {
    let mut list = sample();
    let removed = remove_item(&mut list, "bread", 50).unwrap();
    assert_eq!(removed.len(), 1);
    assert_eq!(removed[0].text, "bread");
    assert_eq!(uncat(&list), strings(&["milk"]));
    assert_eq!(remove_item(&mut list, "zzzzzz", 50).unwrap_err(), EditError::NoMatchingItem);
}

#[test]
fn mobile_edits_items() {
    let mut list = sample();
    assert_eq!(toggle_anchored_item(&mut list, "^milk1"), Ok(()));
    assert_eq!(list.uncategorized_items[0].status, ItemStatus::Done);
    assert_eq!(toggle_anchored_item(&mut list, "^none1"), Err(AnchorError::NotFound));
    assert_eq!(edit_anchored_item(&mut list, "^milk1", "oat milk"), Ok(()));
    assert_eq!(list.uncategorized_items[0].text, "oat milk");
    assert_eq!(edit_anchored_item(&mut list, "^milk1", "   "), Err(EditError::EmptyText));
    assert_eq!(edit_anchored_item(&mut list, "^none1", "x"), Err(EditError::NoMatchingItem));
}

#[test]
fn mobile_removes_and_reorders_items() {
    let mut list = sample();
    let it = remove_matching_item(&mut list, "PEARS").unwrap();
    assert_eq!(it.text, "pears");
    assert_eq!(cat_items(&list, "Fruit"), strings(&["apples"]));
    assert_eq!(remove_matching_item(&mut list, "^hamm5").unwrap().text, "hammer");
    assert!(remove_matching_item(&mut list, "nothing").is_err());

    let mut list = sample();
    assert_eq!(reorder_matching_item(&mut list, "^hamm5", 0), Ok(()));
    assert_eq!(uncat(&list), strings(&["hammer", "milk", "bread"]));
    assert!(cat_items(&list, "Tools").is_empty());
    assert_eq!(reorder_matching_item(&mut list, "apples", 99), Ok(()));
    assert_eq!(uncat(&list), strings(&["hammer", "milk", "bread", "apples"]));
    assert_eq!(reorder_matching_item(&mut list, "nothing", 0), Err(EditError::NoMatchingItem));
}

#[test]
fn items_with_inline_categories() {
    let mut list = sample();
    let added = add_items_with_categories(&mut list, "eggs, ##Fruit kiwi, ,  ##Bakery rolls", Some("Dairy"));
    let texts: Vec<String> = added.iter().map(|i| i.text.clone()).collect();
    assert_eq!(texts, strings(&["eggs", "kiwi", "rolls"]));
    assert!(added.iter().all(|i| i.status == ItemStatus::Todo));
    assert_eq!(names(&list), strings(&["Fruit", "Tools", "Dairy", "Bakery"]));
    assert_eq!(cat_items(&list, "Dairy"), strings(&["eggs"]));
    assert_eq!(cat_items(&list, "Fruit"), strings(&["apples", "pears", "kiwi"]));
    assert_eq!(cat_items(&list, "Bakery"), strings(&["rolls"]));
    add_items_with_categories(&mut list, "x, ##Fruit y", None);
    assert_eq!(uncat(&list), strings(&["milk", "bread", "x"]));
}

#[test]
fn piped_lines_become_items() {
    let mut list = sample();
    assert_eq!(pipe_items(&mut list, "a\n\n  b \n"), 2);
    assert_eq!(uncat(&list), strings(&["milk", "bread", "a", "  b "]));
}

#[test]
fn new_lists_take_the_last_path_component() {
    assert_eq!(new_list_named("trips/italy").metadata.title, "italy");
    assert_eq!(new_list_named("groceries").metadata.title, "groceries");
}

#[test]
fn lists_show_numbered_rows() {
    let mut list = sample();
    create_category(&mut list, "Empty").unwrap();
    let rows = display_rows(&list);
    let shown: Vec<String> = rows
        .iter()
        .map(|r| match r {
            DisplayRow::Heading(n) => format!("## {}", n),
            DisplayRow::Item { number, text, .. } => format!("#{} {}", number, text),
        })
        .collect();
    assert_eq!(
        shown,
        strings(&["#1 milk", "#2 bread", "## Fruit", "#3 apples", "#4 pears", "## Tools", "#5 hammer"])
    );
}

#[test]
fn mobile_markdown_has_title_frontmatter() {
    let list = sample();
    let md = list_to_markdown(&list, None);
    assert!(md.starts_with("---\ntitle: \"groceries\"\n---\n\n- [ ] milk  ^milk1\n"));
    let md = list_to_markdown(&list, Some("id: x\n"));
    assert!(md.starts_with("---\nid: x\n---\n\n"));
    assert!(md.contains("## Tools\n- [x] hammer  ^hamm5\n"));
}

// ---- notes ----

#[test]
fn notes_split_into_frontmatter_and_body() {
    let (fm, body) = split_note("---\ntitle: A\n---\n\nBody\n");
    assert_eq!(fm.as_deref(), Some("\ntitle: A\n"));
    assert_eq!(body, "Body\n");
    assert_eq!(split_note("no fm"), (None, "no fm".to_string()));
    assert_eq!(split_note("---\nunclosed"), (None, "---\nunclosed".to_string()));
}

#[test]
fn words_and_lines() {
    assert_eq!(word_count("hello  world\n foo"), 3);
    assert_eq!(word_count(""), 0);
    assert_eq!(word_count("   "), 0);
    assert_eq!(line_count("a\nb\n"), 2);
    assert_eq!(line_count("a\n\nb"), 3);
    assert_eq!(line_count(""), 0);
}

#[test]
fn search_output_is_read() {
    let m = parse_grep_line("/n/ideas/x.md:12:  some text ", "/n").unwrap();
    assert_eq!(m.note, "ideas/x");
    assert_eq!(m.line, 12);
    assert_eq!(m.content, "some text");
    let m = parse_grep_line("/n/x.md:3:a:b", "/n").unwrap();
    assert_eq!(m.content, "a:b");
    assert_eq!(parse_grep_line("/n/x.md:abc:t", "/n").unwrap().line, 0);
    assert!(parse_grep_line("nocolon", "/n").is_none());
    let all = grep_matches("/n/a.md:1:x\nnoise\n/n/b.md:2:y\n", "/n");
    assert_eq!(all.len(), 2);
    assert_eq!(all[1].note, "b");
    let found = search_note_names("/n/b.md:1:x\n/n/a.md:2:y\n/n/b.md:3:z\nbad", "/n");
    assert_eq!(found, strings(&["a", "b"]));
}

#[test]
fn notes_are_tidied() {
    let p = tidy_note_parts("---\ntitle: A\n---\n\nBody");
    assert_eq!(p.frontmatter.as_deref(), Some("\ntitle: A\n"));
    assert_eq!(p.body, "\n\nBody");
    assert!(!p.restructured);
    let p = tidy_note_parts("plain");
    assert_eq!((p.frontmatter, p.body.as_str(), p.restructured), (None, "plain", true));
    let p = tidy_note_parts("---\nno close");
    assert_eq!((p.frontmatter, p.body.as_str(), p.restructured), (None, "\nno close", true));
    assert_eq!(tidied_note_text("title: A\n", "\n\nBody"), "---\ntitle: A\n---\n\nBody");
}

#[test]
fn new_notes_and_appends() {
    assert_eq!(document_title("ideas/today"), "today");
    assert_eq!(document_title("plain"), "plain");
    assert_eq!(
        new_note_text("ideas/today", "2024-01-01T00:00:00+00:00"),
        "---\ntitle: \"today\"\ncreated: 2024-01-01T00:00:00+00:00\n---\n\n"
    );
    assert_eq!(append_note_text("abc", "more"), "abc\nmore\n");
}

// ---- resolving names ----

fn entries() -> Vec<FileEntry> {
    vec![
        FileEntry { name: "groceries".into(), relative_path: "groceries".into(), full_path: "/l/groceries.md".into() },
        FileEntry { name: "pharmacy".into(), relative_path: "errands/pharmacy".into(), full_path: "/l/errands/pharmacy.md".into() },
        FileEntry { name: "todo".into(), relative_path: "todo".into(), full_path: "/l/todo.md".into() },
    ]
}

#[test]
fn names_resolve() {
    let e = entries();
    assert_eq!(resolve_note("dn", "20240102", &e, 50, 7).unwrap(), "daily_notes/20240102_daily_note");
    assert_eq!(resolve_list("dl.md", "20240102", &e, 50, 7).unwrap(), "daily_lists/20240102_daily_list");
    assert_eq!(resolve_note("a/b.md", "20240102", &e, 50, 7).unwrap(), "a/b");
    assert_eq!(resolve_list("todo.md", "20240102", &e, 50, 7).unwrap(), "todo");
    assert_eq!(resolve_list("pharmacy", "20240102", &e, 50, 7).unwrap(), "errands/pharmacy");
    assert_eq!(resolve_list("grcr", "20240102", &e, 0, 7).unwrap(), "groceries");
    assert!(matches!(resolve_list("zzz", "20240102", &e, 0, 7), Err(NameError::NoMatch)));
    match resolve_list("o", "20240102", &e, 0, 1) {
        Err(NameError::Multiple(v)) => assert_eq!(v.len(), 1),
        other => panic!("expected several matches, got {:?}", other),
    }
}

// ---- file names of synced documents ----

#[test]
fn file_names_follow_content() {
    assert_eq!(
        extract_filename_from_content("\n  Hello World! Foo--Bar__baz\n", "12345678-aaaa"),
        "hello-world_-foo-bar-baz.md"
    );
    let long = "a".repeat(60);
    assert_eq!(extract_filename_from_content(&long, "12345678"), format!("{}.md", "a".repeat(50)));
    assert_eq!(extract_filename_from_content("  \n", "abcdef123456"), "abcdef12.md");
    assert_eq!(extract_filename_from_content("!!!", "abcdef123456"), "abcdef12.md");
}

#[test]
fn received_documents_are_placed() {
    let p = generate_file_path_for_document("abcdef123456", DocumentKind::List, "Groceries\nmilk", "/c");
    assert_eq!(p.relative_path, "lists/groceries.md");
    assert_eq!(p.full_path, "/c/lists/groceries.md");
    assert_eq!(p.kind, DocumentKind::List);
    assert_eq!(
        mobile_document_placement("abcdef12", "milk\nbread", "/c"),
        ("list".to_string(), "/c/lists/milk.md".to_string())
    );
    let long = "x".repeat(250);
    assert_eq!(mobile_document_placement("abcdef12", &long, "/c").0, "note");
    assert_eq!(
        mobile_document_placement("abcdef12", "", "/c"),
        ("note".to_string(), "/c/notes/abcdef12.md".to_string())
    );
}

// ---- server addresses and logins ----

#[test]
fn server_addresses() {
    assert_eq!(parse_server_config("192.168.1.25:5673"), Ok(("192.168.1.25".to_string(), 5673)));
    assert_eq!(parse_server_config("ws://192.168.1.25:5673/api/sync"), Ok(("192.168.1.25".to_string(), 5673)));
    assert_eq!(parse_server_config("http://example.com:8080"), Ok(("example.com".to_string(), 8080)));
    assert_eq!(parse_server_config("https://example.com"), Ok(("example.com".to_string(), 443)));
    assert_eq!(parse_server_config("http://example.com"), Ok(("example.com".to_string(), 80)));
    assert_eq!(parse_server_config("localhost:5673"), Ok(("localhost".to_string(), 5673)));
    assert_eq!(parse_server_config("localhost:sync"), Err(ServerAddressError::InvalidHost));
    assert_eq!(parse_server_config("mailto:someone"), Err(ServerAddressError::InvalidHost));
    assert_eq!(parse_server_config("1:2:3"), Err(ServerAddressError::InvalidFormat));
    assert_eq!(parse_server_config("10.0.0.1:99999"), Err(ServerAddressError::InvalidPort));
    assert_eq!(parse_server_config("nocolon"), Err(ServerAddressError::InvalidFormat));
}

#[test]
fn login_tokens_and_links() {
    assert!(login_token_valid(Some(("ABC", 100)), "ABC", 99));
    assert!(!login_token_valid(Some(("ABC", 100)), "ABC", 100));
    assert!(!login_token_valid(Some(("ABC", 100)), "XYZ", 1));
    assert!(!login_token_valid(None, "ABC", 1));
    assert_eq!(login_token_expiry(10), 910);
    assert_eq!(jwt_expiry(0), 3600);
    let link = login_url("host:5673", "A B", "a@b.c");
    assert_eq!(link, "lst-login://host:5673/auth/verify?token=A%20B&email=a%40b.c");
    assert_eq!(login_email_body(&link, "A B"), format!("Click to login: {}\nOr use code: A B", link));
    assert_eq!(bearer_token("Bearer xyz").as_deref(), Some("xyz"));
    assert_eq!(bearer_token("Basic xyz"), None);
    assert_eq!(login_token_text("apple", "pear", "fig", 1234), "APPLE-PEAR-FIG-1234");
}

// ---- keys from credentials ----

fn expected_key(email: &str, password: &str, token: &str) -> Vec<u8> {
    let lower = email.to_lowercase();
    let digest = sha2::Sha256::digest(format!("lst-salt-v2:{}", lower).as_bytes());
    let salt = SaltString::encode_b64(&digest[..16]).unwrap();
    let input = format!("{}:{}:{}", password, lower, token);
    let hash = argon2::Argon2::default().hash_password(input.as_bytes(), &salt).unwrap();
    hash.hash.unwrap().as_bytes()[..32].to_vec()
}

#[test]
fn keys_derive_from_credentials() {
    let k = derive_key_from_credentials("A@b.c", "pw", "tok").unwrap();
    assert_eq!(k.len(), 32);
    assert_eq!(k, expected_key("A@b.c", "pw", "tok"));
    assert_eq!(k, derive_key_from_credentials("a@b.c", "pw", "tok").unwrap());
    assert_ne!(k, derive_key_from_credentials("a@b.c", "pw2", "tok").unwrap());
    assert_eq!(load_or_derive_key_from_credentials(Some("a@b.c"), Some("pw"), Some("tok")).unwrap(), k);
    assert_eq!(
        load_or_derive_key_from_credentials(Some("a@b.c"), Some("pw"), None),
        Err(CryptoError::MissingCredentials)
    );
}

#[test]
fn saved_keys_load_back() {
    let key = [5u8; 32];
    let text = key_file_text(&key);
    assert_eq!(text, "BQUFBQUFBQUFBQUFBQUFBQUFBQUFBQUFBQUFBQUFBQU=");
    assert_eq!(key_from_file_bytes(text.as_bytes()).unwrap(), key.to_vec());
}

#[test]
fn content_addresses_are_checked() {
    assert_eq!(check_content_address("notes", "ideas/today.md"), Ok(()));
    assert_eq!(check_content_address("", "a"), Err(ContentAddressError::InvalidKind));
    assert_eq!(check_content_address("a/b", "a"), Err(ContentAddressError::InvalidKind));
    assert_eq!(check_content_address("a..b", "a"), Err(ContentAddressError::InvalidKind));
    assert_eq!(check_content_address(".hidden", "a"), Err(ContentAddressError::InvalidKind));
    assert_eq!(check_content_address("notes", ""), Err(ContentAddressError::InvalidPath));
    assert_eq!(check_content_address("notes", "../etc"), Err(ContentAddressError::InvalidPath));
    assert_eq!(check_content_address("notes", "/abs"), Err(ContentAddressError::InvalidPath));
    assert_eq!(check_content_address("notes", "dir/"), Err(ContentAddressError::InvalidPath));
    assert_eq!(check_content_address("", ""), Err(ContentAddressError::InvalidKind));
}

fn now_secs() -> u64 {
    std::time::SystemTime::now().duration_since(std::time::UNIX_EPOCH).unwrap().as_secs()
}

#[test]
fn session_tokens_read_back() {
    let now = now_secs();
    let token = session_token("user@example.com", now).unwrap();
    assert_eq!(token.split('.').count(), 3);
    let header = format!("Bearer {}", token);
    assert_eq!(session_claims(Some(&header)), Some(("user@example.com".to_string(), now + 3600)));
    assert_eq!(session_claims(Some(&token)), None);
    assert_eq!(session_claims(None), None);
    assert_eq!(session_claims(Some("Bearer not.a.token")), None);
}

#[test]
fn expired_or_foreign_session_tokens_are_refused() {
    let old = session_token("user@example.com", 0).unwrap();
    assert_eq!(session_claims(Some(&format!("Bearer {}", old))), None);
    let mut claims = serde_json::Map::new();
    claims.insert("sub".to_string(), serde_json::Value::from("user@example.com"));
    claims.insert("exp".to_string(), serde_json::Value::from(now_secs() + 3600));
    let foreign = jsonwebtoken::encode(
        &jsonwebtoken::Header::default(),
        &claims,
        &jsonwebtoken::EncodingKey::from_secret(b"another secret"),
    )
    .unwrap();
    assert_eq!(session_claims(Some(&format!("Bearer {}", foreign))), None);
}

#[test]
fn logins_with_valid_tokens_get_sessions() {
    let now = now_secs();
    let stored = Some(("APPLE-BERRY-CHERRY-1234", now + 900));
    let jwt = verify_login(stored, "user@example.com", "APPLE-BERRY-CHERRY-1234", now).unwrap();
    assert_eq!(
        session_claims(Some(&format!("Bearer {}", jwt))),
        Some(("user@example.com".to_string(), now + 3600))
    );
    assert_eq!(verify_login(stored, "user@example.com", "WRONG-TOKEN-1234", now), None);
    assert_eq!(verify_login(stored, "user@example.com", "APPLE-BERRY-CHERRY-1234", now + 900), None);
    assert_eq!(verify_login(None, "user@example.com", "APPLE-BERRY-CHERRY-1234", now), None);
}

#[test]
fn generated_tokens_use_three_different_words_and_four_digits() {
    let words: Vec<String> = ["apple", "berry", "cherry", "date"].iter().map(|s| s.to_string()).collect();
    for _ in 0..20 {
        let t = generate_token(&words);
        let parts: Vec<&str> = t.split('-').collect();
        assert_eq!(parts.len(), 4);
        for p in &parts[..3] {
            assert!(words.iter().any(|w| w.to_uppercase() == *p));
        }
        assert!(parts[0] != parts[1] && parts[1] != parts[2] && parts[0] != parts[2]);
        let n: u16 = parts[3].parse().unwrap();
        assert!((1000..10000).contains(&n));
    }
}
