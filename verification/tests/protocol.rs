use lanpaste::codec::content_hash_for;
use lanpaste::server::receive_gate;
use lanpaste::protocol::{
    content_hash_of_sync_items, file_item_has_no_bytes, resolved_content_hash, SyncEntryBody,
    SyncItem,
};

#[test]
fn resolved_hash_prefers_body_field() {
    let body = SyncEntryBody {
        id: "p1".into(),
        copied_at: 1,
        source_device_id: "a".into(),
        source_device_name: "A".into(),
        primary_type: "text".into(),
        title: "hi".into(),
        total_bytes: 2,
        content_hash: "abc123".into(),
        items: vec![SyncItem {
            id: "i1".into(),
            item_type: "text".into(),
            text: Some("hi".into()),
            ..Default::default()
        }],
    };
    assert_eq!(resolved_content_hash(&body), "abc123");
}

#[test]
fn text_sync_hash_matches_store_hasher() {
    let items = vec![SyncItem {
        id: "i1".into(),
        item_type: "text".into(),
        text: Some("hello".into()),
        ..Default::default()
    }];
    assert_eq!(
        content_hash_of_sync_items(&items),
        content_hash_for(&[("text".into(), b"hello".to_vec())])
    );
}

#[test]
fn empty_body_hash_falls_back_to_items() {
    let body = SyncEntryBody {
        id: "p1".into(),
        copied_at: 1,
        source_device_id: "a".into(),
        source_device_name: "A".into(),
        primary_type: "text".into(),
        title: "hello".into(),
        total_bytes: 5,
        content_hash: String::new(),
        items: vec![SyncItem {
            id: "i1".into(),
            item_type: "text".into(),
            text: Some("hello".into()),
            ..Default::default()
        }],
    };
    assert_eq!(
        resolved_content_hash(&body),
        content_hash_for(&[("text".into(), b"hello".to_vec())])
    );
    let mut legacy = body.clone();
    legacy.content_hash = "sync:p1".into();
    assert_eq!(
        resolved_content_hash(&legacy),
        content_hash_for(&[("text".into(), b"hello".to_vec())])
    );
}

#[test]
fn sync_item_bytes_per_kind() {
    let file = SyncItem {
        item_type: "file".into(),
        file_hash: Some("0a0b".into()),
        file_name: Some("a.bin".into()),
        ..Default::default()
    };
    assert_eq!(
        content_hash_of_sync_items(&[file.clone()]),
        content_hash_for(&[("file".into(), vec![0x0a, 0x0b])])
    );
    let bad_hash = SyncItem {
        file_hash: Some("zz".into()),
        ..file.clone()
    };
    assert_eq!(
        content_hash_of_sync_items(&[bad_hash]),
        content_hash_for(&[("file".into(), b"a.bin".to_vec())])
    );
    let rtf = SyncItem {
        item_type: "rtf".into(),
        rtf_b64: Some("aGk=".into()),
        ..Default::default()
    };
    assert_eq!(
        content_hash_of_sync_items(&[rtf]),
        content_hash_for(&[("rtf".into(), b"hi".to_vec())])
    );
    assert!(file_item_has_no_bytes(&file));
    let with_bytes = SyncItem {
        image_b64: Some("AA==".into()),
        ..file
    };
    assert!(!file_item_has_no_bytes(&with_bytes));
}

#[test]
fn any_entry_is_known_by_the_senders_hash() {
    let sender_hash = content_hash_for(&[("image".into(), vec![7u8; 32])]);
    let body = SyncEntryBody {
        id: "p2".into(),
        copied_at: 1,
        source_device_id: "a".into(),
        source_device_name: "A".into(),
        primary_type: "image".into(),
        title: "Image".into(),
        total_bytes: 4,
        content_hash: sender_hash.clone(),
        items: vec![SyncItem {
            id: "i1".into(),
            item_type: "image".into(),
            image_b64: Some("AAECAw==".into()),
            ..Default::default()
        }],
    };
    assert_eq!(resolved_content_hash(&body), sender_hash);
}

#[test]
fn receive_gate_takes_new_entries_only() {
    let hash = content_hash_for(&[("text".into(), b"hi".to_vec())]);
    let body = SyncEntryBody {
        id: "p9".into(),
        copied_at: 1,
        source_device_id: "a".into(),
        source_device_name: "A".into(),
        primary_type: "text".into(),
        title: "hi".into(),
        total_bytes: 2,
        content_hash: hash.clone(),
        items: vec![SyncItem {
            id: "i1".into(),
            item_type: "text".into(),
            text: Some("hi".into()),
            ..Default::default()
        }],
    };
    assert!(receive_gate(&body, false, &None));
    assert!(receive_gate(&body, false, &Some("other".into())));
    assert!(!receive_gate(&body, true, &None));
    assert!(!receive_gate(&body, false, &Some(hash)));
}
