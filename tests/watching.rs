use bambu_connect::devices::BambuDevice;
use bambu_connect::watch::{
    connect_step, poll_payload, report_topic, request_topic, BambuMQTTClient, ConnectStep,
    WatchError, CONNECT_ATTEMPTS,
};

fn device(id: &str, ip: Option<&str>) -> BambuDevice {
    BambuDevice {
        dev_id: id.to_string(),
        name: format!("printer {}", id),
        online: true,
        ip: ip.map(|s| s.to_string()),
        print_status: "IDLE".to_string(),
        dev_model_name: "C11".to_string(),
        dev_product_name: "P1P".to_string(),
        dev_access_code: "code-1".to_string(),
        nozzle_diameter: serde_json::Number::from(1),
    }
}

#[test]
fn watch_without_address_fails() {
    let m: BambuMQTTClient<u32> = BambuMQTTClient::new();
    let d = device("A", None);
    assert!(matches!(m.begin_watch(&d), Err(WatchError::MissingAddress)));
    let mut m = m;
    assert!(matches!(m.register(d, 7), Err((WatchError::MissingAddress, 7))));
    assert_eq!(m.watched_count(), 0);
}

#[test]
fn unwatch_unknown_device_fails_and_changes_nothing() {
    let mut m: BambuMQTTClient<u32> = BambuMQTTClient::new();
    assert!(m.register(device("A", Some("10.0.0.1")), 1).is_ok());
    let r = m.unwatch_device(&device("B", Some("10.0.0.2")));
    assert!(matches!(r, Err(WatchError::NotWatched)));
    assert_eq!(m.watched_count(), 1);
    assert!(m.is_watched(&"A".to_string()));
}

#[test]
fn watch_then_unwatch_counts() {
    let mut m: BambuMQTTClient<u32> = BambuMQTTClient::new();
    let d = device("A", Some("10.0.0.1"));
    let plan = m.begin_watch(&d).ok().unwrap();
    assert_eq!(plan.broker_uri, "mqtts://10.0.0.1:8883");
    assert_eq!(plan.user_name, "bblp");
    assert_eq!(plan.password, "code-1");
    assert_eq!(plan.report_topic, "device/A/report");
    assert_eq!(plan.request_topic, "device/A/request");
    assert_eq!(
        plan.initial_poll,
        "{\"pushing\":{\"sequence_id\":\"0\",\"command\":\"pushall\",\"version\":1,\"push_target\":1}}"
    );
    assert!(m.register(d, 42).is_ok());
    assert_eq!(m.watched_count(), 1);
    assert!(m.is_watched(&"A".to_string()));
    assert_eq!(*m.session_at(0), 42);
    let w = m.unwatch_device(&device("A", None)).ok().unwrap();
    assert_eq!(w.session, 42);
    assert_eq!(w.device.dev_id, "A");
    assert_eq!(m.watched_count(), 0);
    assert!(!m.is_watched(&"A".to_string()));
}

#[test]
fn second_watch_of_same_device_is_refused() {
    let mut m: BambuMQTTClient<u32> = BambuMQTTClient::new();
    assert!(m.register(device("A", Some("10.0.0.1")), 1).is_ok());
    assert!(matches!(m.begin_watch(&device("A", Some("10.0.0.1"))), Err(WatchError::AlreadyWatched)));
    assert!(matches!(m.register(device("A", Some("10.0.0.1")), 2), Err((WatchError::AlreadyWatched, 2))));
    assert_eq!(m.watched_count(), 1);
}

#[test]
fn unreachable_device_gets_three_attempts_and_ten_seconds() {
    let mut attempts = 0u32;
    let mut waited = 0u64;
    loop {
        attempts += 1;
        match connect_step(attempts) {
            ConnectStep::Retry { delay_secs } => waited += delay_secs,
            ConnectStep::GiveUp => break,
        }
    }
    assert_eq!(attempts, 3);
    assert_eq!(attempts, CONNECT_ATTEMPTS);
    assert!(waited >= 10);
    assert_eq!(WatchError::ConnectTimeout.message(), "Failed to connect to MQTT broker after 3 attempts");
}

#[test]
fn poll_rounds_share_one_sequence() {
    let mut m: BambuMQTTClient<u32> = BambuMQTTClient::new();
    assert!(m.register(device("A", Some("10.0.0.1")), 1).is_ok());
    assert!(m.register(device("B", Some("10.0.0.2")), 2).is_ok());
    let r1 = m.poll_round();
    assert_eq!(r1.len(), 2);
    assert_eq!(r1[0].index, 0);
    assert_eq!(r1[0].topic, "device/A/request");
    assert_eq!(r1[1].topic, "device/B/request");
    assert_eq!(r1[0].payload, poll_payload(1));
    assert_eq!(r1[1].payload, poll_payload(1));
    let r2 = m.poll_round();
    assert_eq!(r2[0].payload, poll_payload(2));
}

#[test]
fn poll_payload_text() {
    assert_eq!(
        poll_payload(1234567890),
        "{\"pushing\":{\"sequence_id\":\"1234567890\",\"command\":\"pushall\",\"version\":1,\"push_target\":1}}"
    );
    assert_eq!(
        poll_payload(u64::MAX),
        "{\"pushing\":{\"sequence_id\":\"18446744073709551615\",\"command\":\"pushall\",\"version\":1,\"push_target\":1}}"
    );
    assert_eq!(report_topic("X1"), "device/X1/report");
    assert_eq!(request_topic("X1"), "device/X1/request");
}

#[test]
fn initialize_is_idempotent() {
    let mut m: BambuMQTTClient<u32> = BambuMQTTClient::new();
    assert!(!m.is_initialized());
    assert!(m.initialize());
    assert!(!m.initialize());
    assert!(m.is_initialized());
}

#[test]
fn deinitialize_hands_back_every_session() {
    let mut m: BambuMQTTClient<u32> = BambuMQTTClient::new();
    assert!(m.deinitialize().is_none());
    assert!(m.register(device("A", Some("10.0.0.1")), 1).is_ok());
    assert!(m.register(device("B", Some("10.0.0.2")), 2).is_ok());
    m.initialize();
    let all = m.deinitialize().unwrap();
    assert_eq!(all.len(), 2);
    assert_eq!(all[0].session, 1);
    assert_eq!(all[1].session, 2);
    assert_eq!(m.watched_count(), 0);
    assert!(!m.is_initialized());
    assert!(m.deinitialize().is_none());
}

#[test]
fn watch_error_messages() {
    assert_eq!(
        WatchError::NotWatched.message(),
        "Expected to find the device in the watched devices, but none was found."
    );
    assert_eq!(
        WatchError::DisconnectFailed("gone".to_string()).message(),
        "Failed to disconnect from MQTT broker: gone"
    );
}

#[test]
fn unwatch_hands_back_that_devices_handle() {
    let mut m: BambuMQTTClient<u32> = BambuMQTTClient::new();
    assert!(m.register(device("A", Some("10.0.0.1")), 10).is_ok());
    assert!(m.register(device("B", Some("10.0.0.2")), 20).is_ok());
    assert!(m.register(device("C", Some("10.0.0.3")), 30).is_ok());
    let w = m.unwatch_device(&device("B", None)).ok().unwrap();
    assert_eq!(w.session, 20);
    assert_eq!(m.watched_count(), 2);
    assert_eq!(*m.session_at(0), 10);
    assert_eq!(*m.session_at(1), 30);
    let r = m.poll_round();
    assert_eq!(r[1].topic, "device/C/request");
    assert_eq!(*m.session_at(r[1].index), 30);
}
