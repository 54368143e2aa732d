use bambu_connect::client::BambuClient;
use bambu_connect::devices::{dedupe_messages, BambuDevice};
use bambu_connect::ssdp::SsdpMessage;

fn announcement(location: &str, usn: &str, server: &str) -> SsdpMessage {
    let mut m = SsdpMessage::new();
    m.location = location.to_string();
    m.usn = usn.to_string();
    m.server = server.to_string();
    m
}

fn device(id: &str) -> BambuDevice {
    BambuDevice {
        dev_id: id.to_string(),
        name: format!("printer {}", id),
        online: true,
        ip: None,
        print_status: "IDLE".to_string(),
        dev_model_name: "C11".to_string(),
        dev_product_name: "P1P".to_string(),
        dev_access_code: "12345678".to_string(),
        nozzle_diameter: serde_json::Number::from_f64(0.4).unwrap(),
    }
}

#[test]
fn duplicate_location_keeps_first_seen() {
    let out = dedupe_messages(vec![
        announcement("192.168.1.5", "A", "first"),
        announcement("192.168.1.5", "B", "second"),
    ]);
    assert_eq!(out.len(), 1);
    assert_eq!(out[0].usn, "A");
    assert_eq!(out[0].server, "first");
}

#[test]
fn two_unique_locations_from_three_announcements() {
    let out = dedupe_messages(vec![
        announcement("192.168.1.5", "A", ""),
        announcement("192.168.1.5", "A", ""),
        announcement("192.168.1.9", "B", ""),
    ]);
    assert_eq!(out.len(), 2);
    assert_eq!(out[0].location, "192.168.1.5");
    assert_eq!(out[1].location, "192.168.1.9");
}

#[test]
fn resolution_sets_ip_and_drops_unmatched() {
    let out = BambuClient::get_device_ips(
        vec![device("A"), device("X"), device("B")],
        vec![
            announcement("192.168.1.5", "A", ""),
            announcement("192.168.1.9", "B", ""),
        ],
    );
    assert_eq!(out.len(), 2);
    assert_eq!(out[0].dev_id, "A");
    assert_eq!(out[0].ip.as_deref(), Some("192.168.1.5"));
    assert_eq!(out[0].name, "printer A");
    assert_eq!(out[1].dev_id, "B");
    assert_eq!(out[1].ip.as_deref(), Some("192.168.1.9"));
}

#[test]
fn resolution_uses_deduplicated_announcements() {
    let out = BambuClient::get_device_ips(
        vec![device("A"), device("B")],
        vec![
            announcement("192.168.1.5", "A", ""),
            announcement("192.168.1.5", "B", ""),
        ],
    );
    assert_eq!(out.len(), 1);
    assert_eq!(out[0].dev_id, "A");
}

#[test]
fn no_announcements_resolve_nothing() {
    let out = BambuClient::get_device_ips(vec![device("A")], vec![]);
    assert!(out.is_empty());
}

#[test]
fn discovery_probes_both_ports() {
    let ls = BambuClient::discovery_listeners();
    assert_eq!(ls.len(), 2);
    assert_eq!(ls[0].port, 1990);
    assert_eq!(ls[1].port, 2021);
}

#[test]
fn device_named_only_by_dropped_duplicate_is_left_out() {
    let out = BambuClient::get_device_ips(
        vec![device("X"), device("Y")],
        vec![
            announcement("192.168.1.7", "X", "first"),
            announcement("192.168.1.7", "Y", "second"),
        ],
    );
    assert_eq!(out.len(), 1);
    assert_eq!(out[0].dev_id, "X");
    assert_eq!(out[0].ip.as_deref(), Some("192.168.1.7"));
    assert!(out.iter().all(|d| d.dev_id != "Y"));
}
