use smartcast::origin::{
    accept_https, configured_origin, configured_origin_of, origin_string, parse_https,
    request_origin, request_origin_of, UrlParts,
};

fn parts(host: &str, port: Option<u16>) -> UrlParts {
    UrlParts {
        scheme: "https".to_owned(),
        username: String::new(),
        password: None,
        host: Some(host.to_owned()),
        port,
        path: "/".to_owned(),
        query: None,
        fragment: None,
    }
}

#[test]
fn configuration_defaults_to_smartcast_port_and_preserves_explicit_port() {
    assert_eq!(configured_origin("192.0.2.10").unwrap(), "https://192.0.2.10:7345");
    assert_eq!(configured_origin("https://example.test:443").unwrap(), "https://example.test:443");
}

#[test]
fn request_origin_ignores_path_but_rejects_credentials_and_queries() {
    assert_eq!(
        request_origin("https://192.0.2.10:7345/key_command/").unwrap(),
        "https://192.0.2.10:7345"
    );
    assert!(request_origin("https://token@192.0.2.10:7345/key").is_err());
    assert!(request_origin("https://192.0.2.10:7345/key?next=other").is_err());
}

#[test]
fn configured_ports_are_told_from_hosts() {
    assert_eq!(configured_origin("192.0.2.10:9000").unwrap(), "https://192.0.2.10:9000");
    assert_eq!(configured_origin("https://192.0.2.10:7345").unwrap(), "https://192.0.2.10:7345");
    assert_eq!(configured_origin("https://192.0.2.10/").unwrap(), "https://192.0.2.10:7345");
    assert_eq!(configured_origin("[2001:db8::1]").unwrap(), "https://[[2001:db8::1]]:7345");
    assert_eq!(configured_origin("[2001:db8::1]:443").unwrap(), "https://[[2001:db8::1]]:443");
    assert_eq!(configured_origin("EXAMPLE.test:").unwrap(), "https://example.test:7345");
    assert_eq!(configured_origin("0.0.0.0").unwrap(), "https://0.0.0.0:7345");
    assert_eq!(configured_origin("https://255.255.255.255:65535").unwrap(), "https://255.255.255.255:65535");
}

#[test]
fn addresses_that_say_more_than_an_origin_are_refused() {
    for input in [
        "http://192.0.2.10",
        "192.0.2.10/path",
        "192.0.2.10?x",
        "192.0.2.10#x",
        "user@192.0.2.10",
        "https://:secret@192.0.2.10",
        "https://",
        "",
        "192.0.2.10:99999",
    ] {
        assert_eq!(configured_origin(input).unwrap_err(), "Invalid SmartCast TV origin");
    }
}

#[test]
fn requests_use_the_known_port_of_the_scheme() {
    assert_eq!(request_origin("https://192.0.2.10/a/../b").unwrap(), "https://192.0.2.10:443");
    assert_eq!(request_origin("https://192.0.2.10:443").unwrap(), "https://192.0.2.10:443");
    assert_eq!(request_origin("https://192.0.2.10:0/").unwrap(), "https://192.0.2.10:0");
    assert_eq!(request_origin("https://192.0.2.10/#f").unwrap_err(), "Invalid SmartCast TV origin");
    assert!(request_origin("http://192.0.2.10/").is_err());
}

#[test]
fn parsed_parts_are_read_off() {
    let url = parse_https("example.test:8443/a").ok().unwrap();
    assert_eq!(url.scheme, "https");
    assert_eq!(url.host.as_deref(), Some("example.test"));
    assert_eq!(url.port, Some(8443));
    assert_eq!(url.path, "/a");
    assert!(url.username.is_empty() && url.password.is_none());
    let url = parse_https("example.test/?q#f").ok().unwrap();
    assert_eq!(url.query.as_deref(), Some("q"));
    assert_eq!(url.fragment.as_deref(), Some("f"));
    assert_eq!(parse_https("ftp://example.test").err().unwrap(), "Invalid SmartCast TV origin");
}

#[test]
fn origins_follow_from_the_parts() {
    assert_eq!(configured_origin_of("h", Some(parts("h", Some(443)))).unwrap(), "https://h:7345");
    assert_eq!(configured_origin_of("h:5", Some(parts("h", Some(5)))).unwrap(), "https://h:5");
    assert_eq!(configured_origin_of("h:5", Some(parts("h", None))).unwrap(), "https://h:7345");
    assert_eq!(request_origin_of(Some(parts("h", None))).unwrap(), "https://h:443");
    assert!(request_origin_of(None).is_err());
    assert!(configured_origin_of("h", None).is_err());
    let mut deep = parts("h", Some(7));
    deep.path = "/x".to_owned();
    assert!(configured_origin_of("h:7/x", Some(deep)).is_err());
    let mut deep = parts("h", Some(7));
    deep.path = "/x".to_owned();
    assert_eq!(request_origin_of(Some(deep)).unwrap(), "https://h:7");
}

#[test]
fn origins_tell_host_and_port() {
    assert_eq!(origin_string(&parts("::1", None), 65535).unwrap(), "https://[::1]:65535");
    assert_ne!(
        origin_string(&parts("a", None), 12).unwrap(),
        origin_string(&parts("a", None), 1).unwrap()
    );
    let mut nameless = parts("", None);
    nameless.host = None;
    assert!(origin_string(&nameless, 1).is_err());
    assert!(accept_https(Some(nameless)).is_err());
}

#[test]
fn names_give_origins_like_addresses() {
    for input in ["tv.local", "https://tv.local", "tv.local/", "https://tv.local/", "TV.Local"] {
        assert_eq!(configured_origin(input).unwrap(), "https://tv.local:7345");
    }
    for input in ["Tv-1:443", "https://tv-1:443", "tv-1:443/", "https://TV-1:443/"] {
        assert_eq!(configured_origin(input).unwrap(), "https://tv-1:443");
    }
    for input in ["192.0.2.10", "https://192.0.2.10", "192.0.2.10/", "192.0.2.10:7345/"] {
        assert_eq!(configured_origin(input).unwrap(), "https://192.0.2.10:7345");
    }
    assert!(configured_origin("tv.local//").is_err());
    assert!(configured_origin("tv.1").is_err());
}

#[test]
fn every_plain_name_is_read_in_small_letters() {
    let long = "Ab9".repeat(100);
    for name in ["a", "3com.example", "-a.b-.c", "ab--c.d", "a.b.C-9", "A1-B2", "1.2.3.a4", "tv.local.", "9A.", "foxn--a.b", "4ktv", "tv.3com", "0xg", "a.0x1Z", "tv.-1", long.as_str()] {
        let origin = format!("https://{}:7345", name.to_lowercase());
        assert_eq!(configured_origin(name).unwrap(), origin);
        assert_eq!(configured_origin(&origin).unwrap(), origin);
        assert_eq!(request_origin(&format!("{origin}/a/b_c")).unwrap(), origin);
    }
}

#[test]
fn origins_give_themselves() {
    for origin in ["https://tv.local:7345", "https://a:0", "https://x-y.z9:65535", "https://0.0.0.0:1"] {
        assert_eq!(configured_origin(origin).unwrap(), origin);
        assert_eq!(request_origin(origin).unwrap(), origin);
        assert_eq!(request_origin(&format!("{origin}/key_command/")).unwrap(), origin);
        assert_eq!(request_origin(&format!("{origin}/a/../b://c@d")).unwrap(), origin);
    }
    assert_eq!(request_origin("https://Tv.Local").unwrap(), "https://tv.local:443");
    assert_eq!(request_origin("https://tv.local/a").unwrap(), "https://tv.local:443");
}

#[test]
fn numbers_are_no_names() {
    for input in ["tv.1", "tv.0x", "tv.0xFf", "tv.09.", "tv.256"] {
        assert_eq!(configured_origin(input).unwrap_err(), "Invalid SmartCast TV origin");
    }
    assert_eq!(configured_origin("0x7f.1").unwrap(), "https://127.0.0.1:7345");
}

#[test]
fn encoded_names_are_accepted_or_refused_in_every_form() {
    let hebrew = "xn--4dbcagdahymbxekheh6e0a7fei0b";
    for (name, accepted) in [
        ("XN--Bcher-KVA.Example".to_owned(), true),
        (format!("Abc1.{hebrew}.Tv"), true),
        (format!("ABC-1.DEF.{}", hebrew.to_uppercase()), true),
        (format!("1abc.{hebrew}"), false),
        (format!("1ABC.{hebrew}"), false),
        (format!("tv-.{hebrew}"), false),
        ("xn--.tv".to_owned(), false),
        ("xn--a".to_owned(), false),
        ("XN--tv-".to_owned(), false),
    ] {
        let low = name.to_lowercase();
        let origin = format!("https://{low}:9");
        for host in [&name, &low] {
            for input in [format!("{host}:9"), format!("https://{host}:9"), format!("{host}:9/")] {
                assert_eq!(configured_origin(&input).ok(), accepted.then_some(origin.clone()));
            }
            let target = request_origin(&format!("https://{host}:9/a/b_c"));
            assert_eq!(target.ok(), accepted.then_some(origin.clone()));
        }
    }
}
