use bambu_connect::ssdp::{SsdpListener, SsdpMessage, SsdpParseError};

const NOTIFY: &str = "NOTIFY * HTTP/1.1\r\nHOST: 239.255.255.250:1990\r\nServer: Buildroot/2018.02-rc3 UPnP/1.0 ssdpd/1.8\r\nLocation: 192.168.1.5\r\nNT: urn:bambulab-com:device:3dprinter:1\r\nUSN: 01S00A000000001\r\nCache-Control: max-age=1800\r\nDevModel.bambu.com: C11\r\nDevName.bambu.com: Workshop\r\n\r\n";

#[test]
fn parses_notify_announcement() {
    let m = SsdpMessage::from_message(NOTIFY).unwrap();
    assert_eq!(m.source_address, "239.255.255.250");
    assert_eq!(m.source_port, 1990);
    assert_eq!(m.server, "Buildroot/2018.02-rc3 UPnP/1.0 ssdpd/1.8");
    assert_eq!(m.location, "192.168.1.5");
    assert_eq!(m.nt, "urn:bambulab-com:device:3dprinter:1");
    assert_eq!(m.usn, "01S00A000000001");
    assert_eq!(m.cache_control, "max-age=1800");
    assert_eq!(
        m.custom_fields,
        vec![
            ("DevModel.bambu.com".to_string(), "C11".to_string()),
            ("DevName.bambu.com".to_string(), "Workshop".to_string()),
        ]
    );
}

#[test]
fn header_names_ignore_case() {
    let m = SsdpMessage::from_message("NOTIFY * HTTP/1.1\nlocation: 10.0.0.2\nuSn: abc\ncache-CONTROL: x").unwrap();
    assert_eq!(m.location, "10.0.0.2");
    assert_eq!(m.usn, "abc");
    assert_eq!(m.cache_control, "x");
    assert!(m.custom_fields.is_empty());
}

#[test]
fn empty_message_gives_empty_announcement() {
    let m = SsdpMessage::from_message("").unwrap();
    assert_eq!(m.source_address, "");
    assert_eq!(m.source_port, 0);
    assert_eq!(m.location, "");
    assert!(m.custom_fields.is_empty());
}

#[test]
fn line_without_colon_is_rejected() {
    let r = SsdpMessage::from_message("NOTIFY * HTTP/1.1\r\nLocation 192.168.1.5\r\n");
    assert!(matches!(r, Err(SsdpParseError::MissingSeparator)));
}

#[test]
fn bad_host_port_is_rejected() {
    let r = SsdpMessage::from_message("NOTIFY * HTTP/1.1\nHOST: 239.255.255.250:19x0");
    assert!(matches!(r, Err(SsdpParseError::InvalidPort)));
    let r = SsdpMessage::from_message("NOTIFY * HTTP/1.1\nHOST: 239.255.255.250:65536");
    assert!(matches!(r, Err(SsdpParseError::InvalidPort)));
    let r = SsdpMessage::from_message("NOTIFY * HTTP/1.1\nHOST: 239.255.255.250:");
    assert!(matches!(r, Err(SsdpParseError::InvalidPort)));
    let r = SsdpMessage::from_message("NOTIFY * HTTP/1.1\nHOST: 239.255.255.250:-1");
    assert!(matches!(r, Err(SsdpParseError::InvalidPort)));
}

#[test]
fn host_port_edge_values() {
    let m = SsdpMessage::from_message("NOTIFY * HTTP/1.1\nHOST: a:65535").unwrap();
    assert_eq!(m.source_port, 65535);
    let m = SsdpMessage::from_message("NOTIFY * HTTP/1.1\nHOST: a:+0080").unwrap();
    assert_eq!(m.source_port, 80);
    assert_eq!(m.source_address, "a");
}

#[test]
fn host_without_port_is_ignored() {
    let m = SsdpMessage::from_message("NOTIFY * HTTP/1.1\nHOST: example\nLOCATION: 1.2.3.4").unwrap();
    assert_eq!(m.source_address, "");
    assert_eq!(m.source_port, 0);
    assert_eq!(m.location, "1.2.3.4");
}

#[test]
fn values_are_trimmed_and_keep_later_colons() {
    let m = SsdpMessage::from_message("NOTIFY * HTTP/1.1\r\n  X-Thing  :\t a:b:c \u{a0}\r\n").unwrap();
    assert_eq!(m.custom_fields, vec![("X-Thing".to_string(), "a:b:c".to_string())]);
}

#[test]
fn later_header_overrides_earlier() {
    let m = SsdpMessage::from_message("NOTIFY * HTTP/1.1\nLocation: one\nLocation: two").unwrap();
    assert_eq!(m.location, "two");
}

#[test]
fn first_line_is_skipped_whatever_it_holds() {
    let m = SsdpMessage::from_message("M-SEARCH * HTTP/1.1\nLocation: 192.168.1.5\nNotify-Seq: 7").unwrap();
    assert_eq!(m.location, "192.168.1.5");
    assert_eq!(m.custom_fields, vec![("Notify-Seq".to_string(), "7".to_string())]);
    let m = SsdpMessage::from_message("Location: 10.0.0.1\nUSN: z").unwrap();
    assert_eq!(m.location, "");
    assert_eq!(m.usn, "z");
    let m = SsdpMessage::from_message("no separator here").unwrap();
    assert!(m.custom_fields.is_empty());
}

#[test]
fn later_notify_line_is_a_header() {
    let r = SsdpMessage::from_message("notify * HTTP/1.1\nNOTIFY * HTTP/1.1");
    assert!(matches!(r, Err(SsdpParseError::MissingSeparator)));
}

#[test]
fn listener_keeps_port() {
    assert_eq!(SsdpListener::new(2021).port, 2021);
}
