use ed25519_dalek::Signer;
use lanpaste::crypto::request_message;
use lanpaste::server::{
    authorize_request, auto_write_action, entry_source_address, etag_for, file_access, file_plan,
    is_duplicate_of_latest, parse_range, revoke_allowed, sync_entry_allowed, AutoWrite,
};
use lanpaste::store::{StoredDevice, StoredItem};

#[test]
fn parse_range_forms() {
    assert_eq!(parse_range(Some("bytes=0-"), 100), Some((0, 99)));
    assert_eq!(parse_range(Some("bytes=50-99"), 100), Some((50, 99)));
    assert_eq!(parse_range(Some("bytes=50-"), 100), Some((50, 99)));
    assert_eq!(parse_range(Some("bytes=-20"), 100), Some((80, 99)));
    // Open-ended start at EOF is not satisfiable.
    assert_eq!(parse_range(Some("bytes=100-"), 100), None);
    // End past the file is not clamped, matching the existing contract.
    assert_eq!(parse_range(Some("bytes=50-200"), 100), None);
    assert_eq!(parse_range(Some("items=0-10"), 100), None);
    assert_eq!(parse_range(None, 100), None);
}

#[test]
fn parse_range_odd_forms() {
    assert_eq!(parse_range(Some("bytes=-200"), 100), Some((0, 99)));
    assert_eq!(parse_range(Some("bytes=-"), 100), None);
    assert_eq!(parse_range(Some("bytes=5"), 100), None);
    assert_eq!(parse_range(Some("bytes=9-3"), 100), None);
    assert_eq!(parse_range(Some("bytes=a-3"), 100), None);
}

fn device(pk: &str) -> StoredDevice {
    StoredDevice {
        instance_id: "dev-1".into(),
        name: "Peer".into(),
        note: String::new(),
        fingerprint: "fp".into(),
        public_key: pk.into(),
        cert_der: "Y2VydA==".into(),
        allow_send: true,
        allow_receive: true,
        auto_write_clipboard: true,
        trust_broken: false,
        host: Some("10.0.0.2".into()),
        port: Some(4000),
    }
}

#[test]
fn signed_requests_are_checked() {
    let sk = ed25519_dalek::SigningKey::generate(&mut rand::rngs::OsRng);
    let pk = hex::encode(sk.verifying_key().as_bytes());
    let d = device(&pk);
    let body = b"{\"x\":1}";
    let ts: u64 = 1_700_000_000_000;
    let sig = hex::encode(sk.sign(&request_message("dev-1", ts, body)).to_bytes());
    let ok = authorize_request(
        &Some("dev-1".into()),
        &Some(ts.to_string()),
        &Some(sig.clone()),
        ts + 1_000,
        Some(&d),
        body,
    );
    assert_eq!(ok.unwrap(), "dev-1");
    // Too far from our clock.
    let late = authorize_request(
        &Some("dev-1".into()),
        &Some(ts.to_string()),
        &Some(sig.clone()),
        ts + 300_001,
        Some(&d),
        body,
    );
    assert_eq!(late.unwrap_err(), "device_removed");
    // Another body.
    let other = authorize_request(
        &Some("dev-1".into()),
        &Some(ts.to_string()),
        &Some(sig.clone()),
        ts,
        Some(&d),
        b"{}",
    );
    assert_eq!(other.unwrap_err(), "device_removed");
    // Not paired, or headers missing.
    assert!(authorize_request(&Some("dev-1".into()), &Some(ts.to_string()), &Some(sig.clone()), ts, None, body).is_err());
    assert!(authorize_request(&None, &Some(ts.to_string()), &Some(sig), ts, Some(&d), body).is_err());
}

#[test]
fn endpoint_gates() {
    assert!(revoke_allowed("a", "a").is_ok());
    assert_eq!(revoke_allowed("a", "b").unwrap_err(), "rejected");
    let d = device("00");
    assert!(sync_entry_allowed(Some(&d)).is_ok());
    let closed = StoredDevice {
        allow_receive: false,
        ..d.clone()
    };
    assert_eq!(sync_entry_allowed(Some(&closed)).unwrap_err(), (403, "rejected".into()));
    assert_eq!(sync_entry_allowed(None).unwrap_err(), (401, "device_removed".into()));
    assert!(is_duplicate_of_latest(&Some("h".into()), "h"));
    assert!(!is_duplicate_of_latest(&Some("h".into()), "g"));
    assert!(!is_duplicate_of_latest(&None, "h"));
    assert_eq!(
        entry_source_address(&d, &None),
        (Some("10.0.0.2".to_string()), Some(4000))
    );
    assert_eq!(
        entry_source_address(&d, &Some(("10.0.0.7".into(), 5000))),
        (Some("10.0.0.7".to_string()), Some(5000))
    );
}

fn file_item(token: Option<&str>, hash: Option<&str>) -> StoredItem {
    StoredItem {
        id: "i".into(),
        pasteboard_id: "p".into(),
        sort_order: 0,
        item_type: "file".into(),
        text_content: None,
        html_content: None,
        rtf_b64: None,
        url: None,
        color: None,
        blob_hash: hash.map(String::from),
        file_name: Some("a.bin".into()),
        file_size: Some(100),
        width: None,
        height: None,
        download_token: token.map(String::from),
    }
}

#[test]
fn file_downloads_need_the_token() {
    let it = file_item(Some("tok"), Some("h"));
    assert_eq!(file_access(Some(&it), &Some("tok".into())).unwrap(), "h");
    assert_eq!(
        file_access(Some(&it), &Some("bad".into())).unwrap_err(),
        (401, "device_removed".into())
    );
    assert_eq!(
        file_access(Some(&it), &None).unwrap_err(),
        (401, "device_removed".into())
    );
    let legacy = file_item(None, Some("h"));
    assert_eq!(
        file_access(Some(&legacy), &Some("tok".into())).unwrap_err(),
        (401, "device_removed".into())
    );
    let no_blob = file_item(Some("tok"), None);
    assert_eq!(
        file_access(Some(&no_blob), &Some("tok".into())).unwrap_err(),
        (404, "source_file_gone".into())
    );
    assert_eq!(
        file_access(None, &Some("tok".into())).unwrap_err(),
        (404, "source_file_gone".into())
    );
}

#[test]
fn file_answers_honour_ranges() {
    let etag = etag_for("abc");
    assert_eq!(etag, "\"abc\"");
    let whole = file_plan(100, &etag, None, None);
    assert_eq!((whole.status, whole.start, whole.end, whole.take), (200, 0, 99, 100));
    assert!(whole.content_range.is_none());
    let part = file_plan(100, &etag, Some(" \"abc\" "), Some("bytes=50-"));
    assert_eq!((part.status, part.start, part.end, part.take), (206, 50, 99, 50));
    assert_eq!(part.content_range.as_deref(), Some("bytes 50-99/100"));
    let changed = file_plan(100, &etag, Some("\"old\""), Some("bytes=50-"));
    assert_eq!(changed.status, 200);
    let empty = file_plan(0, &etag, None, None);
    assert_eq!((empty.start, empty.end, empty.take), (0, 0, 1));
}

#[test]
fn received_entries_reach_the_clipboard() {
    assert_eq!(auto_write_action(false, false, 1, 10, false), AutoWrite::Nothing);
    assert_eq!(auto_write_action(true, false, 1, 10, false), AutoWrite::Content);
    assert_eq!(auto_write_action(true, false, 1, 10, true), AutoWrite::Nothing);
    assert_eq!(auto_write_action(true, true, 10, 10, false), AutoWrite::FilePromise);
    assert_eq!(auto_write_action(true, true, 11, 10, false), AutoWrite::Nothing);
}
