use lanpaste::codec::content_hash_for;
use lanpaste::store::{settings_update, AgeLimitUpdate, 
    find_file_for_download, history_entry, sanitize_file_name, sanitize_file_name_on, settings_from_stored,
    stored_settings, FileLookup, StoredItem, StoredPasteboard,
};
use lanpaste::types::{AppSettings, PasteType, Preview, DEFAULT_SHORTCUT};

#[test]
fn dedup_hash_same_content() {
    let a = content_hash_for(&[("text".into(), b"hello".to_vec())]);
    let b = content_hash_for(&[("text".into(), b"hello".to_vec())]);
    let c = content_hash_for(&[("text".into(), b"world".to_vec())]);
    assert_eq!(a, b);
    assert_ne!(a, c);
}

#[test]
fn sanitize_keeps_unicode_basename_and_extension() {
    assert_eq!(
        sanitize_file_name(Some("新增 文本文档.txt")),
        "新增 文本文档.txt"
    );
    assert_eq!(sanitize_file_name(Some("a/../b.txt")), "b.txt");
    assert_eq!(sanitize_file_name(Some("")), "file");
    assert_eq!(sanitize_file_name(None), "file");
}

#[test]
fn sanitize_edge_cases() {
    assert_eq!(sanitize_file_name(Some("..")), "file");
    assert_eq!(sanitize_file_name(Some("/")), "file");
    assert_eq!(sanitize_file_name(Some("dir/.")), "dir");
    assert_eq!(sanitize_file_name(Some("a/..")), "a..");
    assert_eq!(sanitize_file_name(Some("  x<y>:z?.txt  ")), "xyz.txt");
    let long: String = "é".repeat(300);
    assert_eq!(sanitize_file_name(Some(&long)).chars().count(), 255);
}

fn file(id: &str, pb: &str, ty: &str) -> StoredItem {
    StoredItem {
        id: id.into(),
        pasteboard_id: pb.into(),
        sort_order: 0,
        item_type: ty.into(),
        text_content: None,
        html_content: None,
        rtf_b64: None,
        url: None,
        color: None,
        blob_hash: Some("hash".into()),
        file_name: Some("a.bin".into()),
        file_size: Some(5),
        width: None,
        height: None,
        download_token: Some("tok".into()),
    }
}

#[test]
fn find_file_by_item_id_or_pasteboard_id() {
    let item = file("item-1", "pb-1", "file");
    let by_entry = find_file_for_download(&FileLookup {
        entry_items: Some(vec![file("t", "pb-1", "text"), item.clone()]),
        item: None,
        item_siblings: vec![],
    });
    assert_eq!(by_entry.unwrap().id, "item-1");
    let by_item = find_file_for_download(&FileLookup {
        entry_items: None,
        item: Some(item.clone()),
        item_siblings: vec![],
    });
    let by_item = by_item.unwrap();
    assert_eq!(by_item.id, "item-1");
    assert_eq!(by_item.blob_hash.as_deref(), Some("hash"));
    let by_sibling = find_file_for_download(&FileLookup {
        entry_items: None,
        item: Some(file("t", "pb-1", "text")),
        item_siblings: vec![file("t", "pb-1", "text"), item],
    });
    assert_eq!(by_sibling.unwrap().id, "item-1");
    let missing = find_file_for_download(&FileLookup {
        entry_items: None,
        item: None,
        item_siblings: vec![],
    });
    assert!(missing.is_none());
}

#[test]
fn settings_round_trip() {
    let mut s = AppSettings::default();
    s.auto_sync_max_bytes = 123;
    s.cleanup_max_age_days = Some(7);
    s.overlay_shortcut = "Ctrl+Shift+V".into();
    let t = stored_settings(&s);
    assert_eq!(t.auto_sync_max_bytes, "123");
    assert_eq!(t.cleanup_max_age_days, "7");
    let back = settings_from_stored(
        Some(&t.auto_sync_max_bytes),
        Some(&t.cleanup_max_items),
        Some(&t.cleanup_max_bytes),
        Some(&t.cleanup_max_age_days),
        Some(&t.overlay_shortcut),
    );
    assert_eq!(back.auto_sync_max_bytes, 123);
    assert_eq!(back.cleanup_max_items, s.cleanup_max_items);
    assert_eq!(back.cleanup_max_bytes, s.cleanup_max_bytes);
    assert_eq!(back.cleanup_max_age_days, Some(7));
    assert_eq!(back.overlay_shortcut, "Ctrl+Shift+V");
}

#[test]
fn stored_settings_fall_back_to_defaults() {
    let s = settings_from_stored(Some("abc"), None, Some("+5"), Some("null"), Some(""));
    assert_eq!(s.auto_sync_max_bytes, 20 * 1024 * 1024);
    assert_eq!(s.cleanup_max_bytes, 5);
    assert_eq!(s.cleanup_max_age_days, None);
    assert_eq!(s.overlay_shortcut, DEFAULT_SHORTCUT);
    let s = settings_from_stored(None, None, None, Some("99999999999"), None);
    assert_eq!(s.cleanup_max_age_days, None);
}

#[test]
fn history_rows() {
    let pb = StoredPasteboard {
        id: "p".into(),
        copied_at: 9,
        source_device_id: None,
        source_device_name: "Me".into(),
        primary_type: "weird".into(),
        title: "t".into(),
        content_hash: "h".into(),
        total_bytes: 1,
        needs_file_download: false,
        file_download_state: "idle".into(),
        download_token: None,
        source_host: None,
        source_port: None,
        preview_json: "{}".into(),
    };
    let e = history_entry(&pb, Preview::empty());
    assert_eq!(e.primary_type, PasteType::Text);
    assert_eq!(e.id, "p");
    let e = history_entry(
        &StoredPasteboard {
            primary_type: "url".into(),
            ..pb
        },
        Preview::empty(),
    );
    assert_eq!(e.primary_type, PasteType::Url);
}

#[test]
fn settings_updates_merge() {
    let cur = lanpaste::types::AppSettings::default();
    let u = settings_update(&cur, Some(5), None, Some(7), Some(AgeLimitUpdate::Days(30)), Some("Ctrl+K".into()));
    assert_eq!(u.settings.auto_sync_max_bytes, 5);
    assert_eq!(u.settings.cleanup_max_items, cur.cleanup_max_items);
    assert_eq!(u.settings.cleanup_max_bytes, 7);
    assert_eq!(u.settings.cleanup_max_age_days, Some(30));
    assert_eq!(u.settings.overlay_shortcut, "Ctrl+K");
    assert_eq!(u.new_shortcut.as_deref(), Some("Ctrl+K"));

    let u = settings_update(&u.settings, None, None, None, Some(AgeLimitUpdate::Null), Some("Ctrl+K".into()));
    assert_eq!(u.settings.cleanup_max_age_days, None);
    assert!(u.new_shortcut.is_none());
    let u = settings_update(&u.settings, None, None, None, Some(AgeLimitUpdate::Days(1 << 32 | 3)), Some(String::new()));
    assert_eq!(u.settings.cleanup_max_age_days, Some(3));
    assert_eq!(u.settings.overlay_shortcut, "Ctrl+K");
    let u = settings_update(&u.settings, None, None, None, Some(AgeLimitUpdate::Other), None);
    assert_eq!(u.settings.cleanup_max_age_days, None);
}

#[test]
fn sanitize_follows_each_platforms_path_rules() {
    assert_eq!(sanitize_file_name_on(Some("C:\\d\\a.txt"), true), "a.txt");
    assert_eq!(sanitize_file_name_on(Some("dir\\sub/b.png"), true), "b.png");
    assert_eq!(sanitize_file_name_on(Some("C:a.txt"), true), "a.txt");
    assert_eq!(sanitize_file_name_on(Some("\\\\server\\share\\c.txt"), true), "c.txt");
    assert_eq!(sanitize_file_name_on(Some("\\\\server\\share"), true), "servershare");
    assert_eq!(sanitize_file_name_on(Some("C:\\d\\.."), true), "Cd..");
    assert_eq!(sanitize_file_name_on(Some("a\\b.txt"), false), "ab.txt");
    assert_eq!(sanitize_file_name_on(Some("C:\\d\\a.txt"), false), "Cda.txt");
    assert_eq!(sanitize_file_name_on(Some("C:a.txt"), false), "Ca.txt");
    assert_eq!(sanitize_file_name_on(Some("dir\\sub/b.png"), false), "b.png");
    let here = sanitize_file_name(Some("x\\y.txt"));
    assert!(here == "y.txt" || here == "xy.txt");
}

#[test]
fn sanitize_is_trimmed_and_idempotent() {
    for name in ["  x<y>:z?.txt  ", "a/../b.txt", "", "..", " \t", "dir/.", "新增 文本文档.txt", "a\\b c "] {
        for windows in [false, true] {
            let once = sanitize_file_name_on(Some(name), windows);
            assert_eq!(once, once.trim());
            assert_eq!(sanitize_file_name_on(Some(&once), windows), once);
        }
    }
}

#[test]
fn content_hash_is_64_lower_hex() {
    for parts in [vec![], vec![("text".to_string(), b"hello".to_vec())]] {
        let h = content_hash_for(&parts);
        assert_eq!(h.len(), 64);
        assert!(h.chars().all(|c| c.is_ascii_digit() || ('a'..='f').contains(&c)));
    }
}
