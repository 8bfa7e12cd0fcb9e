use lanpaste::client::{host_url, is_pin_mismatch, pin_from_device};
use lanpaste::device::{
    mdns_host_name, mdns_instance_name, nearby_address, nearby_from_service, nearby_list,
    nearby_remove_service, nearby_upsert, paired_list, NearbyInfo,
};
use lanpaste::store::StoredDevice;

fn near(id: &str, port: u16) -> NearbyInfo {
    NearbyInfo {
        instance_id: id.into(),
        name: format!("name-{id}"),
        fingerprint: format!("fp-{id}"),
        host: "10.0.0.1".into(),
        port,
    }
}

fn stored(id: &str) -> StoredDevice {
    StoredDevice {
        instance_id: id.into(),
        name: "N".into(),
        note: "note".into(),
        fingerprint: "fp".into(),
        public_key: "pk".into(),
        cert_der: "Y2VydA==".into(),
        allow_send: true,
        allow_receive: false,
        auto_write_clipboard: true,
        trust_broken: false,
        host: None,
        port: None,
    }
}

#[test]
fn nearby_excludes_self_and_paired() {
    let n = vec![near("me", 1), near("a", 2), near("b", 3)];
    let list = nearby_list(&n, &["b".to_string()], "me");
    assert_eq!(list.len(), 1);
    assert_eq!(list[0].instance_id, "a");
    assert_eq!(list[0].fingerprint, "fp-a");
}

#[test]
fn paired_online_when_seen() {
    let n = vec![near("a", 2)];
    let list = paired_list(&[stored("a"), stored("b")], &n);
    assert!(list[0].online);
    assert!(!list[1].online);
    assert!(!list[0].allow_receive);
    assert_eq!(list[1].note, "note");
    assert_eq!(nearby_address(&n, "a"), Some(("10.0.0.1".to_string(), 2)));
    assert_eq!(nearby_address(&n, "b"), None);
}

#[test]
fn urls_and_pins() {
    assert_eq!(host_url("10.0.0.1", 443, "/pair/request"), "https://10.0.0.1:443/pair/request");
    assert_eq!(host_url("fe80::1", 8080, "/x"), "https://[fe80::1]:8080/x");
    assert_eq!(host_url("[fe80::1]", 8080, "/x"), "https://[fe80::1]:8080/x");
    assert!(is_pin_mismatch("error: trust_broken"));
    assert!(is_pin_mismatch("certificate pin mismatch"));
    assert!(!is_pin_mismatch("offline"));
    assert_eq!(pin_from_device(&stored("a")).unwrap(), b"cert".to_vec());
    let bad = StoredDevice {
        cert_der: "***".into(),
        ..stored("a")
    };
    assert!(pin_from_device(&bad).unwrap_err().starts_with("cert: "));
}

fn info(id: &str, host: &str, port: u16) -> NearbyInfo {
    NearbyInfo {
        instance_id: id.into(),
        name: id.to_uppercase(),
        fingerprint: "fp".into(),
        host: host.into(),
        port,
    }
}

#[test]
fn nearby_table_updates() {
    let mut n = vec![info("dev-a1", "10.0.0.1", 1), info("dev-b2", "10.0.0.2", 2)];
    nearby_upsert(&mut n, info("dev-a1", "10.0.0.9", 9));
    assert_eq!(n.len(), 2);
    assert_eq!(n[0].host, "10.0.0.9");
    assert_eq!(n[0].port, 9);
    nearby_upsert(&mut n, info("dev-c3", "10.0.0.3", 3));
    assert_eq!(n.len(), 3);
    assert_eq!(n[2].instance_id, "dev-c3");
    nearby_remove_service(&mut n, "dev-b2._lanpaste._tcp.local.");
    let ids: Vec<&str> = n.iter().map(|x| x.instance_id.as_str()).collect();
    assert_eq!(ids, vec!["dev-a1", "dev-c3"]);
    // An id is matched anywhere in the service name.
    nearby_remove_service(&mut n, "xdev-c3y");
    assert_eq!(n.len(), 1);
}

#[test]
fn service_announcements() {
    let n = nearby_from_service(Some("peer"), None, Some("f"), None, "mac.local.", 77, "me").unwrap();
    assert_eq!(n.name, "LanPaste");
    assert_eq!(n.host, "mac");
    assert_eq!(n.fingerprint, "f");
    let n = nearby_from_service(Some("peer"), Some("Mac"), None, Some("192.168.1.4".into()), "mac.local.", 77, "me").unwrap();
    assert_eq!(n.host, "192.168.1.4");
    assert_eq!(n.name, "Mac");
    assert_eq!(n.fingerprint, "");
    let n = nearby_from_service(Some("peer"), None, None, None, "box", 1, "me").unwrap();
    assert_eq!(n.host, "");
    assert!(nearby_from_service(Some("me"), None, None, None, "h", 1, "me").is_none());
    assert!(nearby_from_service(Some(""), None, None, None, "h", 1, "me").is_none());
    assert!(nearby_from_service(None, None, None, None, "h", 1, "me").is_none());
    assert_eq!(mdns_host_name("mac"), "mac.local.");
    assert_eq!(mdns_host_name("mac.local."), "mac.local.");
    assert_eq!(mdns_instance_name("0123456789abcdefXYZ"), "0123456789abcde");
    assert_eq!(mdns_instance_name("short"), "short");
}
