use base64::Engine;
use lanpaste::protocol::file_item_has_no_bytes;
use lanpaste::store::{StoredItem, StoredPasteboard};
use lanpaste::sync::{
    after_auto_send, after_flush_failure, auto_sync_step, build_sync_body, download_complete,
    download_failure, download_source, download_start, expected_total_after, auto_sync_outcome, SyncTarget,
    flush_step, is_retryable_sync_error, map_net_err, parse_content_range_total, plan_resume,
    queue_after_failure, range_header, sync_address, sync_gate, sync_post_result, AutoSyncStep,
    FlushStep, ResumeAction, MAX_SYNC_ATTEMPTS,
};

#[test]
fn auto_sync_file_payload_has_no_bytes() {
    let items = vec![StoredItem {
        id: "i1".into(),
        pasteboard_id: "p1".into(),
        sort_order: 0,
        item_type: "file".into(),
        text_content: None,
        html_content: None,
        rtf_b64: None,
        url: None,
        color: None,
        blob_hash: Some("abc".into()),
        file_name: Some("a.bin".into()),
        file_size: Some(1024),
        width: None,
        height: None,
        download_token: Some("tok".into()),
    }];
    let fake_bytes = vec![("i1".into(), vec![1, 2, 3, 4])];
    let body = build_sync_body(
        "p1",
        1,
        "dev",
        "Dev",
        "file",
        "a.bin",
        1024,
        "hash-file",
        &items,
        &fake_bytes,
    );
    assert_eq!(body.items.len(), 1);
    assert!(file_item_has_no_bytes(&body.items[0]));
    assert!(body.items[0].image_b64.is_none());
    assert_eq!(body.items[0].file_name.as_deref(), Some("a.bin"));
    assert_eq!(body.items[0].file_hash.as_deref(), Some("abc"));
    assert_eq!(body.items[0].download_token.as_deref(), Some("tok"));
}

fn item(id: &str, ty: &str) -> StoredItem {
    StoredItem {
        id: id.into(),
        pasteboard_id: "p1".into(),
        sort_order: 0,
        item_type: ty.into(),
        text_content: None,
        html_content: None,
        rtf_b64: None,
        url: None,
        color: None,
        blob_hash: Some("hash".into()),
        file_name: if ty == "file" {
            Some("photo.png".into())
        } else {
            None
        },
        file_size: Some(3 * 1024 * 1024),
        width: None,
        height: None,
        download_token: if ty == "file" {
            Some("tok".into())
        } else {
            None
        },
    }
}

#[test]
fn file_copy_omits_sidecar_image_bytes() {
    let preview = vec![0u8; 3 * 1024 * 1024];
    let body = build_sync_body(
        "p1",
        1,
        "dev",
        "Dev",
        "file",
        "photo.png",
        preview.len() as u64,
        "hash-file-img",
        &[item("f1", "file"), item("img", "image")],
        &[("img".into(), preview)],
    );
    let image = body
        .items
        .iter()
        .find(|i| i.item_type == "image")
        .expect("image item");
    assert!(image.image_b64.is_none());
    assert!(body
        .items
        .iter()
        .filter(|i| i.item_type == "file")
        .all(file_item_has_no_bytes));
}

#[test]
fn image_only_entry_includes_bytes() {
    let png = vec![0x89, 0x50, 0x4E, 0x47, 1, 2, 3];
    let body = build_sync_body(
        "p1",
        1,
        "dev",
        "Dev",
        "image",
        "图片",
        png.len() as u64,
        "hash-img",
        &[item("img", "image")],
        &[("img".into(), png.clone())],
    );
    assert_eq!(body.content_hash, "hash-img");
    let b64 = body.items[0].image_b64.as_deref().expect("image_b64");
    assert_eq!(
        base64::Engine::decode(&base64::engine::general_purpose::STANDARD, b64).unwrap(),
        png
    );
}

#[test]
fn resume_plan_start_append_and_restart() {
    assert_eq!(plan_resume(0, Some(100)), ResumeAction::Fresh);
    assert_eq!(plan_resume(0, None), ResumeAction::Fresh);
    assert_eq!(plan_resume(30, Some(100)), ResumeAction::Resume(30));
    assert_eq!(plan_resume(30, None), ResumeAction::Resume(30));
    // A partial that already holds the whole file is finalized, not re-fetched.
    assert_eq!(plan_resume(100, Some(100)), ResumeAction::AlreadyComplete(100));
    // Over-long partial (corrupt / different blob) restarts.
    assert_eq!(plan_resume(120, Some(100)), ResumeAction::Fresh);
}

#[test]
fn content_range_total_parsing() {
    assert_eq!(
        parse_content_range_total(Some("bytes 100-199/1000")),
        Some(1000)
    );
    assert_eq!(parse_content_range_total(Some("bytes 0-0/*")), None);
    assert_eq!(parse_content_range_total(Some("nonsense")), None);
    assert_eq!(parse_content_range_total(None), None);
}

#[test]
fn retryable_errors_are_classified_explicitly() {
    for permanent in ["rejected", "payload_too_large", "device_removed", "trust_broken"] {
        assert!(!is_retryable_sync_error(permanent), "{permanent}");
    }
    for transient in ["offline", "timeout", "connection reset"] {
        assert!(is_retryable_sync_error(transient), "{transient}");
    }
}

#[test]
fn queue_evicts_after_bounded_attempts() {
    assert!(queue_after_failure(1, true));
    assert!(queue_after_failure(MAX_SYNC_ATTEMPTS - 1, true));
    assert!(!queue_after_failure(MAX_SYNC_ATTEMPTS, true));
    // Permanent failures never stay, regardless of attempt count.
    assert!(!queue_after_failure(1, false));
}

#[test]
fn content_range_total_edge_forms() {
    assert_eq!(parse_content_range_total(Some("bytes 0-9/ 42 ")), Some(42));
    assert_eq!(parse_content_range_total(Some("a/b/7")), Some(7));
    assert_eq!(parse_content_range_total(Some("bytes 0-9/-1")), None);
    assert_eq!(parse_content_range_total(Some("bytes 0-9/")), None);
}

#[test]
fn post_status_mapping() {
    assert_eq!(sync_post_result(204, ""), Ok(()));
    assert_eq!(sync_post_result(401, "").unwrap_err(), "device_removed");
    assert_eq!(sync_post_result(403, "").unwrap_err(), "rejected");
    assert_eq!(sync_post_result(413, "").unwrap_err(), "payload_too_large");
    assert_eq!(sync_post_result(503, "").unwrap_err(), "offline");
    assert_eq!(
        sync_post_result(400, "length limit exceeded").unwrap_err(),
        "payload_too_large"
    );
    assert_eq!(sync_post_result(404, "nope").unwrap_err(), "rejected");
}

#[test]
fn network_error_mapping() {
    assert_eq!(map_net_err("invalid peer certificate", false, false), "trust_broken");
    assert_eq!(map_net_err("trust_broken", false, false), "trust_broken");
    assert_eq!(map_net_err("connect refused", true, false), "offline");
    assert_eq!(map_net_err("timed out", false, true), "offline");
    assert_eq!(map_net_err("weird", false, false), "weird");
}

#[test]
fn send_decisions() {
    assert_eq!(sync_gate(false, true, 0, 0).unwrap_err(), "rejected");
    assert_eq!(sync_gate(true, false, 11, 10), Ok(false));
    assert_eq!(sync_gate(true, true, 11, 10), Ok(true));
    assert_eq!(auto_sync_step(false, false, true), AutoSyncStep::Skip);
    assert_eq!(auto_sync_step(true, true, true), AutoSyncStep::Skip);
    assert_eq!(auto_sync_step(true, false, false), AutoSyncStep::Queue);
    assert_eq!(auto_sync_step(true, false, true), AutoSyncStep::Send);
    assert_eq!(after_auto_send(&Ok(())), Ok(false));
    assert_eq!(after_auto_send(&Err("offline".into())), Ok(true));
    assert_eq!(after_auto_send(&Err("rejected".into())).unwrap_err(), "rejected");
}

#[test]
fn auto_sync_outcome_queues_and_reports_first_permanent() {
    let t = |allow_send, trust_broken, online| SyncTarget { allow_send, trust_broken, online };
    let targets = [
        t(false, false, true),
        t(true, false, false),
        t(true, false, true),
        t(true, false, true),
        t(true, false, true),
        t(true, true, true),
        t(true, false, true),
    ];
    let sends = vec![
        None,
        None,
        Some(Ok(())),
        Some(Err("offline".to_string())),
        Some(Err("rejected".to_string())),
        None,
        Some(Err("trust_broken".to_string())),
    ];
    let (queue, result) = auto_sync_outcome(10, 100, &targets, &sends);
    assert_eq!(queue, vec![false, true, false, true, false, false, false]);
    assert_eq!(result.unwrap_err(), "rejected");
    let (queue, result) = auto_sync_outcome(10, 100, &targets[..4], &sends[..4]);
    assert_eq!(queue, vec![false, true, false, true]);
    assert_eq!(result, Ok(()));
    let (queue, result) = auto_sync_outcome(101, 100, &targets, &sends);
    assert_eq!(queue, vec![false; 7]);
    assert_eq!(result, Ok(()));
}

#[test]
fn flush_decisions() {
    assert!(matches!(flush_step(false, Some(1), 10), FlushStep::Wait));
    assert!(matches!(flush_step(true, None, 10), FlushStep::Drop(r) if r == "item_removed"));
    assert!(matches!(flush_step(true, Some(11), 10), FlushStep::Drop(r) if r == "payload_too_large"));
    assert!(matches!(flush_step(true, Some(10), 10), FlushStep::Send));
    assert_eq!(after_flush_failure("offline", 1), None);
    assert_eq!(after_flush_failure("offline", MAX_SYNC_ATTEMPTS).as_deref(), Some("offline"));
    assert_eq!(after_flush_failure("rejected", 1).as_deref(), Some("rejected"));
}

#[test]
fn addresses_prefer_the_network() {
    assert_eq!(
        sync_address(&Some("old".into()), Some(1), &Some(("new".into(), 2))),
        Some(("new".to_string(), 2))
    );
    assert_eq!(
        sync_address(&Some("old".into()), Some(1), &None),
        Some(("old".to_string(), 1))
    );
    assert_eq!(sync_address(&Some("old".into()), None, &None), None);
}

#[test]
fn download_decisions() {
    let pb = StoredPasteboard {
        id: "p".into(),
        copied_at: 1,
        source_device_id: Some("dev".into()),
        source_device_name: "Dev".into(),
        primary_type: "file".into(),
        title: "a".into(),
        content_hash: "h".into(),
        total_bytes: 5,
        needs_file_download: true,
        file_download_state: "idle".into(),
        download_token: Some("pbtok".into()),
        source_host: Some("10.0.0.9".into()),
        source_port: Some(70_000),
        preview_json: "{}".into(),
    };
    let mut file = item("f", "file");
    file.download_token = None;
    let src = download_source(&None, None, &None, &pb, &file).unwrap();
    assert_eq!(src.host, "10.0.0.9");
    assert_eq!(src.port, (70_000i64 as u16));
    assert_eq!(src.token, "pbtok");
    let no_host = StoredPasteboard {
        source_host: None,
        ..pb.clone()
    };
    assert_eq!(
        download_source(&None, Some(1), &None, &no_host, &file).err().as_deref(),
        Some("offline")
    );
    assert_eq!(range_header(30), "bytes=30-");
    let f = download_failure(401, "");
    assert_eq!(f.error, "device_removed");
    assert!(f.discard_partial);
    let f = download_failure(503, "");
    assert_eq!(f.error, "offline");
    assert!(!f.discard_partial);
    assert_eq!(download_failure(416, "").error, "offline");
    assert_eq!(download_failure(404, "").error, "source_file_gone");
    assert_eq!(download_failure(404, "rejected").error, "rejected");

    let s = download_start(true, 30, Some(100), Some(100), Some(70));
    assert_eq!((s.received, s.total, s.discard_partial, s.append), (30, 100, false, true));
    let s = download_start(true, 30, Some(100), None, Some(70));
    assert_eq!(s.total, 100);
    let s = download_start(false, 30, Some(100), None, None);
    assert_eq!((s.received, s.total, s.discard_partial, s.append), (0, 100, true, false));
    assert!(download_complete(100, 100));
    assert!(!download_complete(99, 100));
    assert!(download_complete(5, 0));
    assert_eq!(expected_total_after(0, Some(7)), Some(7));
    assert_eq!(expected_total_after(9, Some(7)), Some(9));
}
