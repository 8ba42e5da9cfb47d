use smartcast::session::{
    bridge_configuration, configure_toward, credential_id_valid, smartcast_configure,
    smartcast_forget, ConfigureEvent, Configuring, Deletion, ForgetEvent, Forgetting,
    CREDENTIAL_SERVICE,
};

fn begin(host: &str, id: &str) -> Configuring {
    smartcast_configure(host, "device".to_owned(), "Den \"TV\"".to_owned(), id.to_owned())
}

fn failure(state: Configuring) -> String {
    match state {
        Configuring::Failed { message } => message,
        _ => panic!("no failure"),
    }
}

fn vault(state: Configuring, opened: bool) -> Configuring {
    state.next(ConfigureEvent::Vault { opened })
}

#[test]
fn credential_identifiers_are_short_plain_texts() {
    assert!(credential_id_valid("tv.1_A-z"));
    assert!(credential_id_valid(&"a".repeat(128)));
    assert!(!credential_id_valid(&"a".repeat(129)));
    assert!(!credential_id_valid(""));
    assert!(!credential_id_valid("a b"));
    assert!(!credential_id_valid("\u{e9}"));
    assert_eq!(CREDENTIAL_SERVICE, "org.viptv.smartcast");
}

#[test]
fn sessions_come_about_when_every_step_succeeds() {
    let state = vault(begin("192.0.2.10", "tv"), true);
    let state = state.next(ConfigureEvent::Credential { token: Some("tok".to_owned()) });
    match &state {
        Configuring::BuildCore { configuration, .. } => {
            let read: serde_json::Value = serde_json::from_str(configuration).unwrap();
            assert_eq!(read["host"], "https://192.0.2.10:7345");
            assert_eq!(read["authToken"], "tok");
            assert_eq!(read["deviceId"], "device");
            assert_eq!(read["deviceName"], "Den \"TV\"");
        }
        _ => panic!("no core"),
    }
    let state = state.next(ConfigureEvent::Core { built: true });
    match state.next(ConfigureEvent::Transport { built: true }) {
        Configuring::Configured { origin, credential_id } => {
            assert_eq!(origin, "https://192.0.2.10:7345");
            assert_eq!(credential_id, "tv");
        }
        _ => panic!("no session"),
    }
}

#[test]
fn a_missing_credential_is_null() {
    let text = bridge_configuration("o".to_owned(), None, "d".to_owned(), "n".to_owned());
    assert_eq!(text, "{\"authToken\":null,\"deviceId\":\"d\",\"deviceName\":\"n\",\"host\":\"o\"}");
}

#[test]
fn configuration_fails_with_what_was_missing() {
    assert_eq!(failure(begin("192.0.2.10", "")), "Invalid SmartCast credential identifier");
    assert_eq!(failure(begin("http://x", "")), "Invalid SmartCast credential identifier");
    assert_eq!(failure(begin("http://x", "tv")), "Invalid SmartCast TV origin");
    assert_eq!(failure(vault(begin("x", "tv"), false)), "SmartCast credential vault is unavailable");
    let read = || vault(begin("x", "tv"), true).next(ConfigureEvent::Credential { token: None });
    assert_eq!(failure(read().next(ConfigureEvent::Core { built: false })), "Invalid SmartCast configuration");
    let built = read().next(ConfigureEvent::Core { built: true });
    assert_eq!(
        failure(built.next(ConfigureEvent::Transport { built: false })),
        "SmartCast transport is unavailable"
    );
}

#[test]
fn configuration_takes_the_origin_that_was_found() {
    let state = configure_toward(Ok("o".to_owned()), "d".to_owned(), "n".to_owned(), "c".to_owned());
    assert!(matches!(state, Configuring::OpenVault { .. }));
    let state = state.next(ConfigureEvent::Core { built: true });
    assert!(matches!(state, Configuring::OpenVault { .. }));
    let state = configure_toward(Err("x".to_owned()), "d".to_owned(), "n".to_owned(), "c".to_owned());
    assert_eq!(failure(state), "Invalid SmartCast TV origin");
}

fn looked_up(configured: bool) -> Forgetting {
    smartcast_forget().next(ForgetEvent::Cancelled).next(ForgetEvent::Session { configured })
}

fn deleted(deletion: Deletion) -> Forgetting {
    looked_up(true)
        .next(ForgetEvent::Core { cleared: true })
        .next(ForgetEvent::Vault { opened: true })
        .next(ForgetEvent::Credential { deletion })
}

#[test]
fn forgetting_ends_well_when_nothing_is_left() {
    assert!(matches!(smartcast_forget(), Forgetting::Cancel));
    assert!(matches!(looked_up(false), Forgetting::Done));
    assert!(matches!(looked_up(true), Forgetting::ClearCore));
    assert!(matches!(deleted(Deletion::Deleted), Forgetting::Done));
    assert!(matches!(deleted(Deletion::NoEntry), Forgetting::Done));
}

#[test]
fn forgetting_fails_with_what_was_missing() {
    let message = |state: Forgetting| match state {
        Forgetting::Failed { message } => message,
        _ => panic!("no failure"),
    };
    assert_eq!(
        message(looked_up(true).next(ForgetEvent::Core { cleared: false })),
        "SmartCast core is unavailable"
    );
    let cleared = looked_up(true).next(ForgetEvent::Core { cleared: true });
    assert_eq!(
        message(cleared.next(ForgetEvent::Vault { opened: false })),
        "SmartCast credential vault is unavailable"
    );
    assert_eq!(message(deleted(Deletion::Failed)), "Could not clear SmartCast credential");
}

#[test]
fn forgetting_twice_ends_well() {
    assert!(matches!(deleted(Deletion::Deleted), Forgetting::Done));
    assert!(matches!(deleted(Deletion::NoEntry), Forgetting::Done));
    assert!(matches!(looked_up(false), Forgetting::Done));
    assert!(matches!(looked_up(false).next(ForgetEvent::Cancelled), Forgetting::Done));
}

#[test]
fn sessions_can_be_asked_for_by_name() {
    for host in ["Tv.local:9000", "https://tv.local:9000/", "https://tv.local:9000"] {
        match begin(host, "tv-1") {
            Configuring::OpenVault { origin, .. } => assert_eq!(origin, "https://tv.local:9000"),
            _ => panic!("refused"),
        }
    }
}
