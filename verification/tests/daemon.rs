use lst::commands::{normalize_list, normalize_note};
use lst::config::{Config, State};
use lst::crypto::{encrypt, expand_key_path_home};
use lst::edit::{mark_item_done, mark_item_undone, FindError};
use lst::frontends::{test_command, MobileConfig, MobileSyncConfig};
use lst::list::{ItemStatus, List};
use lst::markdown::parse_items;
use lst::syncd::{
    change_decision, choose_doc_id, content_hash, data_change_decision, decrypt_changes, document_owner, file_event_decision, jwt_action,
    keep_pending_after, refresh_base_url, sync_due, ChangeDecision, JwtAction, PathDecision, ServerEvent,
    SessionAction, SkipReason, SyncRunner, SyncSession, SyncStart,
};

fn strings(v: &[&str]) -> Vec<String> {
    v.iter().map(|s| s.to_string()).collect()
}

#[test]
fn file_events_skip_own_writes_cloud_folders_dirs_and_hidden_files() {
    let p = "/home/u/lst/lists/groceries.md";
    assert_eq!(file_event_decision(p, false, false, false), PathDecision::Process);
    assert_eq!(file_event_decision(p, false, false, true), PathDecision::Delete);
    assert_eq!(file_event_decision(p, true, false, false), PathDecision::Skip(SkipReason::RecentlySynced));
    assert_eq!(
        file_event_decision("/Users/u/Dropbox/lst/a.md", false, false, false),
        PathDecision::Skip(SkipReason::CloudStorage)
    );
    assert_eq!(file_event_decision("/home/u/lst/lists", false, true, false), PathDecision::Skip(SkipReason::Directory));
    assert_eq!(
        file_event_decision("/home/u/lst/.hidden.md", false, false, false),
        PathDecision::Skip(SkipReason::IgnoredFile)
    );
    assert_eq!(
        file_event_decision("/home/u/lst/a.md.swp", false, false, true),
        PathDecision::Skip(SkipReason::IgnoredFile)
    );
    assert_eq!(file_event_decision("/home/u/lst/x.tmp", false, false, false), PathDecision::Skip(SkipReason::IgnoredFile));
}

#[test]
fn document_ids_prefer_stored_ones() {
    let d = "derived".to_string();
    assert_eq!(choose_doc_id(Some("full".into()), Some("rel".into()), d.clone()), "full");
    assert_eq!(choose_doc_id(None, Some("rel".into()), d.clone()), "rel");
    assert_eq!(choose_doc_id(None, None, d), "derived");
    assert_eq!(document_owner(Some("device-1")), "device-1");
    assert_eq!(document_owner(None), "local");
}

#[test]
fn content_changes() {
    assert_eq!(change_decision(100, Some(50), None, "h"), ChangeDecision::TooLarge);
    assert_eq!(change_decision(50, Some(50), Some("h"), "h"), ChangeDecision::Unchanged);
    assert_eq!(change_decision(10, None, Some("old"), "new"), ChangeDecision::UpdateExisting);
    assert_eq!(change_decision(u64::MAX, None, None, "new"), ChangeDecision::CreateNew);
}

#[test]
fn login_token_actions() {
    assert_eq!(jwt_action(true, false, false), JwtAction::UseCurrent);
    assert_eq!(jwt_action(true, true, true), JwtAction::Refresh);
    assert_eq!(jwt_action(false, false, true), JwtAction::Refresh);
    assert_eq!(jwt_action(false, true, false), JwtAction::Fail);
}

#[test]
fn refresh_urls_keep_host_and_port() {
    assert_eq!(refresh_base_url("ws://192.168.1.25:5673/api/sync"), "http://192.168.1.25:5673");
    assert_eq!(refresh_base_url("wss://example.com:7000"), "http://example.com:7000");
    assert_eq!(refresh_base_url("example.com"), "http://example.com:5673");
    assert_eq!(refresh_base_url("ws://example.com:notaport"), "http://example.com:5673");
}

#[test]
fn periodic_sync_timing() {
    assert!(!sync_due(29, None));
    assert!(sync_due(30, None));
    assert!(sync_due(5, Some(5)));
    assert!(!sync_due(4, Some(5)));
    assert!(keep_pending_after(false));
    assert!(!keep_pending_after(true));
}

#[test]
fn sessions_follow_the_server() {
    let mut s = SyncSession::new("me".to_string());
    match s.on_event(ServerEvent::NewChanges { doc_id: "d1".into(), from_device_id: "other".into() }) {
        SessionAction::ApplyChanges { doc_id } => assert_eq!(doc_id, "d1"),
        other => panic!("unexpected {:?}", other),
    }
    assert!(matches!(
        s.on_event(ServerEvent::NewChanges { doc_id: "d1".into(), from_device_id: "me".into() }),
        SessionAction::IgnoreOwnChanges
    ));
    match s.on_event(ServerEvent::DocumentList {
        server_ids: strings(&["a", "b", "c"]),
        local_ids: strings(&["b", "d"]),
    }) {
        SessionAction::Exchange { request, push } => {
            assert_eq!(request, strings(&["a", "c"]));
            assert_eq!(push, strings(&["d"]));
        }
        other => panic!("unexpected {:?}", other),
    }
    assert!(s.received_document_list);
    assert_eq!(s.expected_snapshots, 2);
    match s.on_event(ServerEvent::Snapshot { doc_id: "a".into(), known_locally: false }) {
        SessionAction::StoreSnapshot { doc_id, known_locally, close } => {
            assert_eq!(doc_id, "a");
            assert!(!known_locally);
            assert!(!close);
        }
        other => panic!("unexpected {:?}", other),
    }
    match s.on_event(ServerEvent::Snapshot { doc_id: "c".into(), known_locally: true }) {
        SessionAction::StoreSnapshot { close, .. } => assert!(close),
        other => panic!("unexpected {:?}", other),
    }
    assert!(matches!(s.on_event(ServerEvent::Other), SessionAction::Continue));
    assert!(matches!(s.on_event(ServerEvent::TimedOut), SessionAction::Close));
    assert!(matches!(s.on_event(ServerEvent::Closed), SessionAction::Close));
}

#[test]
fn undecryptable_changes_are_skipped() {
    let key = [7u8; 32];
    let a = encrypt(b"first", &key).unwrap();
    let b = encrypt(b"second", &[8u8; 32]).unwrap();
    let c = encrypt(b"third", &key).unwrap();
    let out = decrypt_changes(&vec![a, b, vec![1, 2, 3], c], &key);
    assert_eq!(out, vec![b"first".to_vec(), b"third".to_vec()]);
}

#[test]
fn manual_sync_runs() {
    let mut r = SyncRunner { in_progress: false, force_after_current: false };
    assert_eq!(r.begin(false, true), SyncStart::NotConfigured);
    assert_eq!(r.begin(true, false), SyncStart::Run);
    assert!(r.in_progress);
    assert_eq!(r.begin(true, false), SyncStart::Skipped);
    assert_eq!(r.begin(true, true), SyncStart::Queued);
    assert!(r.force_after_current);
    assert!(r.round_sends(true, false));
    assert!(r.after_success());
    assert!(r.in_progress && !r.force_after_current);
    assert!(!r.after_success());
    assert!(!r.in_progress);
    assert_eq!(r.begin(true, false), SyncStart::Run);
    assert!(!r.round_sends(false, false));
    assert!(!r.in_progress);
    assert_eq!(r.begin(true, false), SyncStart::Run);
    r.after_failure();
    assert!(!r.in_progress);
}

#[test]
fn todays_names() {
    let l = normalize_list("dl");
    assert!(l.starts_with("daily_lists/") && l.ends_with("_daily_list"));
    assert_eq!(l.len(), "daily_lists/".len() + 8 + "_daily_list".len());
    assert_eq!(normalize_list("groceries.md"), "groceries");
    let n = normalize_note("dn.md");
    assert!(n.starts_with("daily_notes/") && n.ends_with("_daily_note"));
    assert_eq!(normalize_note("ideas"), "ideas");
}

#[test]
fn marking_items_by_target() {
    let mut list = List::new("groceries".to_string());
    parse_items(&mut list, "- [ ] milk\n- [x] bread\n");
    let item = mark_item_done(&mut list, "milk", 75).unwrap();
    assert_eq!(item.text, "milk");
    assert_eq!(item.status, ItemStatus::Done);
    let item = mark_item_undone(&mut list, "#2", 75).unwrap();
    assert_eq!(item.text, "bread");
    assert_eq!(item.status, ItemStatus::Todo);
    assert_eq!(mark_item_done(&mut list, "#9", 75).map(|i| i.text), Err(FindError::NotFound));
    assert!(list.all_items().iter().all(|i| i.status != ItemStatus::Done || i.text == "milk"));
}

#[test]
fn environment_backed_helpers() {
    assert_eq!(expand_key_path_home("/etc/lst/key").as_deref(), Some("/etc/lst/key"));
    if let Some(p) = expand_key_path_home("~/key") {
        assert!(p.ends_with("/key") && !p.starts_with('~'));
    }
    let c = Config::default();
    if let Some(d) = c.get_content_dir() {
        assert!(d.ends_with("lst/content"));
    }
    let mut c = Config::default();
    if c.init_syncd() {
        assert!(c.syncd.is_some());
    }
    let mut s = State::default();
    assert!(!s.is_jwt_valid());
    s.store_jwt("token".to_string(), i64::MAX);
    assert!(s.is_jwt_valid());
    s.store_auth_token("auth".to_string());
    assert_eq!(s.auth.auth_token.as_deref(), Some("auth"));
}

#[test]
fn mobile_helpers() {
    let r = test_command();
    assert!(r.success);
    assert_eq!(r.message, "Test command working");
    let mut sync = MobileSyncConfig::new();
    sync.email = Some("a@b.c".into());
    sync.auth_token = Some("tok".into());
    assert_eq!(sync.get_credentials(), (Some("a@b.c"), Some("tok")));
    let mut config = MobileConfig::default();
    assert_eq!(config.get_jwt(), None);
    config.store_jwt("jwt".to_string(), 100);
    assert_eq!(config.get_jwt().map(|s| s.as_str()), Some("jwt"));
}

#[test]
fn content_hashes_are_hex_sha256() {
    assert_eq!(content_hash(b""), "e3b0c44298fc1c149afbf4c8996fb92427ae41e4649b934ca495991b7852b855");
    assert_eq!(content_hash(b"abc"), "ba7816bf8f01cfea414140de5dae2223b00361a396177a9cb410ff61f20015ad");
    let h = content_hash(b"abc");
    assert_eq!(data_change_decision(b"abc", Some(3), Some(&h)), (ChangeDecision::Unchanged, h.clone()));
    assert_eq!(data_change_decision(b"abcd", Some(3), Some(&h)), (ChangeDecision::TooLarge, String::new()));
    let (d, h2) = data_change_decision(b"abd", None, Some(&h));
    assert_eq!(d, ChangeDecision::UpdateExisting);
    assert_eq!(h2, content_hash(b"abd"));
    assert_eq!(data_change_decision(b"abc", None, None).0, ChangeDecision::CreateNew);
}
