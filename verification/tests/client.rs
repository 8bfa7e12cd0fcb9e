use lanpaste::client::{file_download_url, signed_headers};
use lanpaste::crypto::{verify_request, Identity};

#[test]
fn download_url_encodes_token() {
    assert_eq!(
        file_download_url("10.0.0.2", 5000, "item-1", "ab12"),
        "https://10.0.0.2:5000/files/item-1?token=ab12"
    );
    assert_eq!(
        file_download_url("fe80::2", 7, "x", "a b/é"),
        "https://[fe80::2]:7/files/x?token=a%20b%2F%C3%A9"
    );
    assert_eq!(file_download_url("h", 1, "x", ""), "https://h:1/files/x?token=");
}

#[test]
fn signed_headers_authenticate() {
    let id = Identity::from_parts("dev-h".into(), vec![3u8; 32], vec![], vec![]);
    let h = signed_headers(&id, 1_700_000_000_000, b"{}");
    assert_eq!(h.len(), 3);
    assert_eq!(h[0], ("x-lanpaste-instance".to_string(), "dev-h".to_string()));
    assert_eq!(h[1], ("x-lanpaste-ts".to_string(), "1700000000000".to_string()));
    assert_eq!(h[2].0, "x-lanpaste-sig");
    assert!(verify_request(&id.public_key_hex(), "dev-h", 1_700_000_000_000, b"{}", &h[2].1).is_ok());
    assert!(verify_request(&id.public_key_hex(), "dev-h", 1_700_000_000_001, b"{}", &h[2].1).is_err());
}
