use lanpaste::types::{
    primary_type, should_auto_sync, AppSettings, PasteType, DEFAULT_AUTO_SYNC_MAX_BYTES,
    DEFAULT_CLEANUP_MAX_BYTES, DEFAULT_CLEANUP_MAX_ITEMS, DEFAULT_SHORTCUT,
};

#[test]
fn primary_type_order() {
    assert_eq!(
        primary_type(&[PasteType::Text, PasteType::File]),
        PasteType::File
    );
    assert_eq!(
        primary_type(&[PasteType::Text, PasteType::Color]),
        PasteType::Color
    );
    assert_eq!(
        primary_type(&[PasteType::Text, PasteType::Html, PasteType::Rtf]),
        PasteType::Html
    );
    assert_eq!(
        primary_type(&[PasteType::Image, PasteType::Url, PasteType::Text]),
        PasteType::Image
    );
    assert_eq!(primary_type(&[PasteType::Text]), PasteType::Text);
    assert_eq!(primary_type(&[]), PasteType::Text);
}

#[test]
fn auto_sync_20mb_threshold() {
    let cap = DEFAULT_AUTO_SYNC_MAX_BYTES;
    assert!(should_auto_sync(0, cap));
    assert!(should_auto_sync(cap, cap));
    assert!(!should_auto_sync(cap + 1, cap));
    assert!(!should_auto_sync(50 * 1024 * 1024, cap));
}

#[test]
fn kind_names_round_trip() {
    let all = [
        PasteType::Text,
        PasteType::Url,
        PasteType::Color,
        PasteType::Html,
        PasteType::Rtf,
        PasteType::Image,
        PasteType::File,
    ];
    for t in all {
        assert_eq!(PasteType::parse(t.as_str()), Some(t));
    }
    assert_eq!(PasteType::parse("files"), None);
    assert_eq!(PasteType::parse("Text"), None);
    assert_eq!(PasteType::File.as_str(), "file");
}

#[test]
fn primary_type_rtf_before_image() {
    assert_eq!(
        primary_type(&[PasteType::Image, PasteType::Rtf]),
        PasteType::Rtf
    );
    assert_eq!(primary_type(&[PasteType::Url]), PasteType::Url);
}

#[test]
fn default_settings() {
    let s = AppSettings::default();
    assert_eq!(s.auto_sync_max_bytes, 20 * 1024 * 1024);
    assert_eq!(s.cleanup_max_items, DEFAULT_CLEANUP_MAX_ITEMS);
    assert_eq!(s.cleanup_max_bytes, DEFAULT_CLEANUP_MAX_BYTES);
    assert_eq!(s.cleanup_max_age_days, None);
    assert_eq!(s.overlay_shortcut, DEFAULT_SHORTCUT);
}
