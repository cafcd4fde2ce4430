use lst::config::{
    default_confirm_delete, default_leader_key, default_max_file_size, default_max_snapshots,
    default_max_suggestions, default_resolution_order, default_sync_interval, default_threshold, Config, State,
};
use lst::list::{generate_anchor, is_valid_anchor, ItemStatus, List, ListItem};
use lst::markdown::{parse_headline, parse_item_line, parse_items};
use lst::notes::note_name_of;
use lst::paths::{is_absolute, join};
use lst::server_config::{
    default_content_db, default_database_dir, default_host, default_port, default_sync_db, default_tokens_db,
};
use lst::sorted::insert_sorted;
use lst::status::SyncStatusTracker;
use lst::storage::markdown_file_path;
use lst::sync::path_from_relative;
use lst::syncd::{
    fallback_snapshot_filename, filename_stem_from_content, is_ignored_name, key_paths_to_try, strings_missing_from,
};
use lst::text::{decimal_chars, find_from, replace_chars, split_chars, str_eq, trim_chars};
use lst::theme::{
    default_accent, default_background, default_border, default_error, default_foreground, default_info,
    default_muted, default_primary, default_secondary, default_success, default_warning,
};

fn chars(s: &str) -> Vec<char> {
    s.chars().collect()
}

fn text(v: &[char]) -> String {
    v.iter().collect()
}

#[test]
fn configuration_defaults() {
    assert_eq!(default_sync_interval(), 30);
    assert_eq!(default_max_file_size(), 10 * 1024 * 1024);
    assert_eq!(default_max_snapshots(), 100);
    assert_eq!(default_resolution_order(), vec!["anchor", "exact", "fuzzy", "index", "interactive"]);
    assert_eq!(default_threshold(), 50);
    assert_eq!(default_max_suggestions(), 7);
    assert_eq!(default_leader_key(), " ");
    assert!(default_confirm_delete());
    assert_eq!(default_host(), "127.0.0.1");
    assert_eq!(default_port(), 5673);
    assert_eq!(default_database_dir(), "~/.local/share/lst/lst_server_data");
    assert_eq!(default_tokens_db(), "tokens.db");
    assert_eq!(default_content_db(), "content.db");
    assert_eq!(default_sync_db(), "sync.db");
}

#[test]
fn semantic_color_defaults() {
    let got = [
        default_background(),
        default_foreground(),
        default_primary(),
        default_secondary(),
        default_accent(),
        default_muted(),
        default_border(),
        default_success(),
        default_warning(),
        default_error(),
        default_info(),
    ];
    let want = ["base00", "base05", "base0D", "base06", "base0E", "base03", "base02", "base0B", "base0A", "base08", "base0C"];
    assert_eq!(got.to_vec(), want.iter().map(|s| s.to_string()).collect::<Vec<_>>());
}

#[test]
fn credentials_and_sync_setup() {
    let mut s = State::default();
    s.store_auth_credentials("a@b.c".to_string(), "tok".to_string());
    assert_eq!(s.auth.email.as_deref(), Some("a@b.c"));
    assert_eq!(s.auth.auth_token.as_deref(), Some("tok"));
    let mut c = Config::default();
    if c.init_sync() {
        assert_eq!(c.sync.clone().unwrap().interval_seconds, 30);
    }
}

#[test]
fn anchors_are_fresh_and_valid() {
    let a = generate_anchor();
    let b = generate_anchor();
    assert!(is_valid_anchor(&a) && is_valid_anchor(&b));
    assert!(a.starts_with('^'));
    assert_ne!(a, b);
}

#[test]
fn finding_items() {
    let mut list = List::new("groceries".to_string());
    parse_items(&mut list, "- [ ] milk  ^milk1\n- [x] Bread  ^brd22\n\n## Fruit\n- [ ] apples  ^app33\n");
    assert_eq!(list.find_by_anchor("^app33"), Some(2));
    assert_eq!(list.find_by_anchor("^none1"), None);
    assert_eq!(list.find_by_text("bread"), Some(1));
    assert_eq!(list.find_by_text("cheese"), None);
    assert_eq!(list.get_by_index(2).map(|i| i.text), Some("apples".to_string()));
    assert!(list.get_by_index(3).is_none());
    let item = ListItem { text: "pears".to_string(), status: ItemStatus::Todo, anchor: "^pear4".to_string() };
    list.place_item(item.clone(), Some("Fruit"));
    assert_eq!(list.categories[0].items.len(), 2);
    list.place_item(ListItem { text: "soap".to_string(), ..item.clone() }, Some("Home"));
    assert_eq!(list.categories[1].name, "Home");
    list.place_item(ListItem { text: "eggs".to_string(), ..item }, None);
    assert_eq!(list.uncategorized_items.len(), 3);
}

#[test]
fn reading_lines() {
    let (status, t, anchor) = parse_item_line(&chars("- [x] bread  ^brd22")).unwrap();
    assert_eq!(status, ItemStatus::Done);
    assert_eq!(text(&t), "bread");
    assert_eq!(anchor.map(|a| text(&a)), Some("^brd22".to_string()));
    let (status, t, anchor) = parse_item_line(&chars("- [ ] milk")).unwrap();
    assert_eq!((status, text(&t), anchor), (ItemStatus::Todo, "milk".to_string(), None));
    assert!(parse_item_line(&chars("* milk")).is_none());
    assert_eq!(parse_headline(&chars("## Fruit ")).map(|n| text(&n)), Some("Fruit".to_string()));
    assert!(parse_headline(&chars("# Title")).is_none());
}

#[test]
fn paths_and_names() {
    assert!(is_absolute("/a"));
    assert!(!is_absolute("a/b"));
    assert_eq!(join("/a", "b"), "/a/b");
    assert_eq!(join("/a/", "b"), "/a/b");
    assert_eq!(join("/a", "/b"), "/b");
    assert_eq!(join("", "b"), "b");
    assert_eq!(markdown_file_path("/notes", "ideas"), "/notes/ideas.md");
    assert_eq!(note_name_of("/notes/sub/idea.md", "/notes"), "sub/idea");
    let p = path_from_relative("lists/groceries.md", "/content");
    assert_eq!(p.full_path, "/content/lists/groceries.md");
    assert_eq!(p.relative_path, "lists/groceries.md");
}

#[test]
fn sorted_insertion_keeps_order_without_duplicates() {
    let mut v: Vec<String> = Vec::new();
    for s in ["pear", "apple", "zucchini", "apple", "mango"] {
        insert_sorted(&mut v, s.to_string());
    }
    assert_eq!(v, vec!["apple", "mango", "pear", "zucchini"]);
}

#[test]
fn daemon_file_names() {
    assert_eq!(filename_stem_from_content("Shopping List\nmilk\n"), "shopping-list");
    assert_eq!(filename_stem_from_content("   \n  Big   Plans  \n"), "big-plans");
    assert_eq!(filename_stem_from_content("\n\n"), "");
    assert_eq!(fallback_snapshot_filename("0123456789abcdef"), "01234567.md");
    assert!(is_ignored_name(".hidden"));
    assert!(is_ignored_name("draft.swp"));
    assert!(!is_ignored_name("notes.md"));
    let a: Vec<String> = ["x", "y", "z"].iter().map(|s| s.to_string()).collect();
    let b: Vec<String> = ["y"].iter().map(|s| s.to_string()).collect();
    assert_eq!(strings_missing_from(&a, &b), vec!["x", "z"]);
}

#[test]
fn status_reports() {
    let mut t = SyncStatusTracker::new(10);
    t.update_sync_status(false, 3, Some("offline".to_string()), 20);
    assert!(!t.status.connected);
    assert_eq!(t.status.pending_changes, 3);
    assert_eq!(t.status.error.as_deref(), Some("offline"));
    assert!(t.status.last_sync.is_none());
    assert_eq!(t.last_update, 20);
    t.update_sync_status(true, 0, None, 30);
    assert!(t.status.connected && t.status.last_sync.is_some());
}

#[test]
fn text_helpers() {
    assert!(str_eq("abc", "abc"));
    assert!(!str_eq("abc", "abd"));
    assert_eq!(text(&trim_chars(&chars("  a b \t"))), "a b");
    let parts: Vec<String> = split_chars(&chars("a,b,,c"), ',').iter().map(|p| text(p)).collect();
    assert_eq!(parts, vec!["a", "b", "", "c"]);
    assert_eq!(text(&replace_chars(&chars("a-b-c"), &chars("-"), &chars("--"))), "a--b--c");
    assert_eq!(text(&decimal_chars(0)), "0");
    assert_eq!(text(&decimal_chars(5673)), "5673");
    assert_eq!(find_from(&chars("abcabc"), &chars("bc"), 2), Some(4));
    assert_eq!(find_from(&chars("abcabc"), &chars("x"), 0), None);
}

#[test]
fn fallback_key_is_tried_only_when_it_is_another_path() {
    assert_eq!(key_paths_to_try("/k/master.key", None), vec!["/k/master.key".to_string()]);
    assert_eq!(key_paths_to_try("/k/master.key", Some("/k/master.key")), vec!["/k/master.key".to_string()]);
    assert_eq!(key_paths_to_try("/k/master.key", Some("/k//master.key")), vec!["/k/master.key".to_string()]);
    assert_eq!(
        key_paths_to_try("/k/master.key", Some("/d/master.key")),
        vec!["/k/master.key".to_string(), "/d/master.key".to_string()]
    );
}
