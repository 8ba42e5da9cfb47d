use smartcast::search::{
    discover_ssdp, smartcast_discover, DiscoverEvent, Discovering, Discovery, SearchEvent,
    Searching, SSDP_SEARCH_ALL, SSDP_SEARCH_DIAL,
};
use smartcast::ssdp::Source;

const REPLY: &[u8] = b"HTTP/1.1 200 OK\r\nUSN: vizio\r\n\r\n";

fn failure(state: Searching) -> String {
    match state {
        Searching::Failed { message } => message,
        _ => panic!("no failure"),
    }
}

fn ready() -> Searching {
    discover_ssdp()
        .next(SearchEvent::Opened { opened: true })
        .next(SearchEvent::Joined)
        .next(SearchEvent::Unblocked { unblocked: true })
}

fn sent() -> Searching {
    ready().next(SearchEvent::Sent { sent: true }).next(SearchEvent::Sent { sent: true })
}

fn hear(state: Searching, last: u8) -> Searching {
    state
        .next(SearchEvent::Clock { elapsed: 1 })
        .next(SearchEvent::Clock { elapsed: 1 })
        .next(SearchEvent::Datagram { reply: REPLY.to_vec(), source: Source::V4(192, 0, 2, last) })
}

fn found(state: Searching) -> Vec<String> {
    match state {
        Searching::Done { tvs } => tvs.iter().map(|tv| tv.host.clone()).collect(),
        _ => panic!("not done"),
    }
}

#[test]
fn searches_that_cannot_begin_fail() {
    assert_eq!(
        failure(discover_ssdp().next(SearchEvent::Opened { opened: false })),
        "Could not open a local network socket to search for TVs"
    );
    let joined = discover_ssdp().next(SearchEvent::Opened { opened: true }).next(SearchEvent::Joined);
    assert_eq!(
        failure(joined.next(SearchEvent::Unblocked { unblocked: false })),
        "Could not prepare the local TV search"
    );
    assert_eq!(
        failure(ready().next(SearchEvent::Sent { sent: false })),
        "Could not send the TV search on the local network"
    );
    assert_eq!(
        failure(ready().next(SearchEvent::Sent { sent: true }).next(SearchEvent::Sent { sent: false })),
        "Could not send the TV search on the local network"
    );
}

#[test]
fn both_searches_are_sent() {
    assert_eq!(ready().datagram(), Some(SSDP_SEARCH_ALL));
    assert_eq!(ready().next(SearchEvent::Sent { sent: true }).datagram(), Some(SSDP_SEARCH_DIAL));
    assert_eq!(sent().datagram(), None);
    assert!(SSDP_SEARCH_ALL.ends_with("MX: 1\r\nST: ssdp:all\r\n\r\n"));
    assert!(SSDP_SEARCH_DIAL.ends_with("ST: urn:dial-multiscreen-org:service:dial:1\r\n\r\n"));
}

#[test]
fn each_host_is_listed_once_in_the_order_of_the_answers() {
    let state = hear(hear(hear(sent(), 9), 5), 9);
    assert_eq!(found(state.next(SearchEvent::Clock { elapsed: 3_000 })), ["192.0.2.9", "192.0.2.5"]);
}

#[test]
fn the_list_keeps_its_limit() {
    let mut state = sent();
    for last in 0..16 {
        state = hear(state, last);
    }
    assert_eq!(found(state.next(SearchEvent::Clock { elapsed: 1 })).len(), 16);
}

#[test]
fn the_window_ends_the_search() {
    let open = sent().next(SearchEvent::Clock { elapsed: 2_999 });
    assert!(matches!(open, Searching::Resend { .. }));
    assert!(found(sent().next(SearchEvent::Clock { elapsed: 3_000 })).is_empty());
}

#[test]
fn searches_are_sent_again_once() {
    let again = |elapsed: u64| {
        sent().next(SearchEvent::Clock { elapsed }).next(SearchEvent::Clock { elapsed })
    };
    assert!(matches!(again(999), Searching::Receive { .. }));
    assert!(matches!(again(1_000), Searching::SendAll { .. }));
    let unsent = again(1_000).next(SearchEvent::Sent { sent: false });
    assert!(matches!(unsent, Searching::Receive { .. }));
    let resent = again(1_000).next(SearchEvent::Sent { sent: true }).next(SearchEvent::Sent { sent: true });
    let parked = resent.next(SearchEvent::Silence);
    assert!(matches!(parked, Searching::Park { .. }));
    let later = parked
        .next(SearchEvent::Rested)
        .next(SearchEvent::Clock { elapsed: 2_000 })
        .next(SearchEvent::Clock { elapsed: 2_000 });
    assert!(matches!(later, Searching::Receive { .. }));
}

#[test]
fn lists_can_be_kept_by_hand() {
    let mut list = Discovery::new();
    assert!(list.searching(0));
    assert!(!list.searching(3_000));
    assert!(list.resend_due(1_000));
    assert!(!list.resend_due(1_000));
    list.receive(REPLY, Source::V4(1, 2, 3, 4));
    list.receive(b"noise", Source::V4(1, 2, 3, 5));
    assert_eq!(list.found.len(), 1);
    assert_eq!(list.found[0].name, "Vizio TV (1.2.3.4)");
}

#[test]
fn discovery_answers_with_the_list_or_the_reason() {
    let message = |state: Discovering| match state {
        Discovering::Failed { message } => message,
        _ => panic!("no failure"),
    };
    assert_eq!(message(smartcast_discover().next(DiscoverEvent::Stopped)), "TV discovery stopped before finishing");
    assert_eq!(message(smartcast_discover().next(DiscoverEvent::NoSearch { message: "m".to_owned() })), "m");
    let found = || smartcast_discover().next(DiscoverEvent::Found { tvs: vec![] });
    assert_eq!(message(found().next(DiscoverEvent::Encoded { text: None })), "Could not encode the discovered TV list");
    match found().next(DiscoverEvent::Encoded { text: Some("[]".to_owned()) }) {
        Discovering::Done { text } => assert_eq!(text, "[]"),
        _ => panic!("no text"),
    }
}

#[test]
fn searches_end_within_six_steps_of_their_window() {
    let state = sent().next(SearchEvent::Clock { elapsed: 2_999 });
    assert!(matches!(state, Searching::Resend { .. }));
    let state = state.next(SearchEvent::Clock { elapsed: 3_000 });
    assert_eq!(state.datagram(), Some(SSDP_SEARCH_ALL));
    let state = state.next(SearchEvent::Sent { sent: true });
    assert_eq!(state.datagram(), Some(SSDP_SEARCH_DIAL));
    let state = state.next(SearchEvent::Sent { sent: false });
    assert!(matches!(state, Searching::Receive { .. }));
    let state = state.next(SearchEvent::Silence).next(SearchEvent::Rested);
    assert!(found(state.next(SearchEvent::Clock { elapsed: 3_001 })).is_empty());
}
