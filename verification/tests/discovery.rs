use smartcast::ssdp::{header_value, ssdp_response_tv, vizio_segment, Source};

const TV: Source = Source::V4(192, 0, 2, 50);
const OTHER: Source = Source::V4(192, 0, 2, 51);
const BRANDED: &str = "HTTP/1.1 200 OK\r\nCACHE-CONTROL: max-age=1800\r\nSERVER: Linux/2.6.18 UPnP/1.0 VIZIO SmartCast/19.0.4\r\nLOCATION: http://192.0.2.50:4700/device_description.xml\r\nUSN: uuid:5ec5a51e-8cb3-4c0d-8b1e-6d1c5d6b9f1a::urn:dial-multiscreen-org:service:dial:1\r\n\r\n";

#[test]
fn smartcast_discovery_names_come_from_ssdp_headers_with_ip_fallback() {
    let tv = ssdp_response_tv(BRANDED.as_bytes(), TV).unwrap();
    assert_eq!(tv.host, "192.0.2.50");
    assert_eq!(tv.name, "VIZIO SmartCast (192.0.2.50)");
    let unbranded_server = ssdp_response_tv(
        b"HTTP/1.1 200 OK\r\nUSN: uuid:aa::vizio-smartcast\r\n\r\n",
        TV,
    )
    .unwrap();
    assert_eq!(unbranded_server.name, "Vizio TV (192.0.2.50)");
}

#[test]
fn smartcast_discover_discovery_names_come_from_ssdp_headers_with_ip_fallback() {
    let tv = ssdp_response_tv(BRANDED.as_bytes(), TV).unwrap();
    assert_eq!(tv.host, "192.0.2.50");
    assert_eq!(tv.name, "VIZIO SmartCast (192.0.2.50)");
    let unbranded_server = ssdp_response_tv(
        b"HTTP/1.1 200 OK\r\nUSN: uuid:aa::vizio-smartcast\r\n\r\n",
        TV,
    )
    .unwrap();
    assert_eq!(unbranded_server.name, "Vizio TV (192.0.2.50)");
}

#[test]
fn smartcast_discovery_ignores_non_vizio_replies_and_multicast_noise() {
    assert!(ssdp_response_tv(b"HTTP/1.1 200 OK\r\nSERVER: Linux/3.4 UPnP/1.0\r\n\r\n", OTHER).is_none());
    assert!(ssdp_response_tv(b"NOTIFY * HTTP/1.1\r\nSERVER: VIZIO SmartCast\r\n\r\n", OTHER).is_none());
    assert!(ssdp_response_tv(b"\xff\xfe not text", OTHER).is_none());
    assert!(ssdp_response_tv(b"HTTP/1.1 200 OK\r\nCACHE-CONTROL: max-age=1800\r\nLOCATION: http://192.0.2.51:4700/dd.xml\r\n\r\n", OTHER).is_none());
}

#[test]
fn smartcast_discover_discovery_ignores_non_vizio_replies_and_multicast_noise() {
    assert!(ssdp_response_tv(b"HTTP/1.1 200 OK\r\nSERVER: Linux/3.4 UPnP/1.0\r\n\r\n", OTHER).is_none());
    assert!(ssdp_response_tv(b"NOTIFY * HTTP/1.1\r\nSERVER: VIZIO SmartCast\r\n\r\n", OTHER).is_none());
    assert!(ssdp_response_tv(b"\xff\xfe not text", OTHER).is_none());
    assert!(ssdp_response_tv(b"HTTP/1.1 200 OK\r\nCACHE-CONTROL: max-age=1800\r\nLOCATION: http://192.0.2.51:4700/dd.xml\r\n\r\n", OTHER).is_none());
}

#[test]
fn header_names_ignore_case_and_values_keep_colons() {
    let reply = "HTTP/1.1 200 OK\r\n  Server\u{a0}: a:b \r\nserver: second\r\n\r\n";
    assert_eq!(header_value(reply, "SERVER"), Some("a:b"));
    assert_eq!(header_value(reply, "sErVeR"), Some("a:b"));
    assert_eq!(header_value(reply, "USN"), None);
}

#[test]
fn status_line_and_lines_without_colon_give_no_header() {
    assert_eq!(header_value("SERVER: x", "SERVER"), None);
    assert_eq!(header_value("SERVER: x\r\nplain\r\nSERVER:", "SERVER"), Some(""));
    assert_eq!(header_value("", "SERVER"), None);
}

#[test]
fn segments_start_with_the_brand_and_end_at_the_slash() {
    assert_eq!(vizio_segment("VIZIO SmartCast/19.0.4"), Some("VIZIO SmartCast"));
    assert_eq!(vizio_segment("\u{e9}\u{e9} ViZiO  /x/y"), Some("ViZiO"));
    assert_eq!(vizio_segment("Linux/vizio"), Some("vizio"));
    assert_eq!(vizio_segment("Linux"), None);
}

#[test]
fn replies_over_ipv6_are_skipped() {
    assert!(ssdp_response_tv(BRANDED.as_bytes(), Source::V6).is_none());
}

#[test]
fn any_of_three_headers_may_carry_the_brand() {
    let tv = ssdp_response_tv(
        b"HTTP/1.1 200 OK\r\nserver: Linux\r\nLocation: http://VIZIO.local/\r\n",
        Source::V4(10, 0, 0, 255),
    )
    .unwrap();
    assert_eq!(tv.host, "10.0.0.255");
    assert_eq!(tv.name, "Vizio TV (10.0.0.255)");
    assert!(ssdp_response_tv(b"HTTP/1.1 200 OK\r\nX: vizio\r\n", TV).is_none());
}
