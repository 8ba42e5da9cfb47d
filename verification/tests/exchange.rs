use std::collections::BTreeMap;

use smartcast::exchange::{execute, execute_toward, Exchange, ExchangeEvent, PlannedRequest};

const OWN: &str = "https://192.0.2.10:7345";

fn request() -> PlannedRequest {
    PlannedRequest {
        method: "PUT".to_owned(),
        url: "https://192.0.2.10:7345/key_command/".to_owned(),
        headers: BTreeMap::from([("AUTH".to_owned(), "t".to_owned())]),
        body: None,
        timeout_millis: 5_000,
        max_response_bytes: 8,
    }
}

fn refused(change: fn(&mut PlannedRequest)) -> bool {
    let mut planned = request();
    change(&mut planned);
    matches!(execute(planned, false, OWN), Exchange::Refused)
}

fn answered(status: u16, length: Option<u64>) -> Exchange {
    execute(request(), false, OWN).next(ExchangeEvent::Answered { status, length })
}

fn chunk(bytes: &[u8]) -> ExchangeEvent {
    ExchangeEvent::Chunk { bytes: bytes.to_vec() }
}

#[test]
fn requests_to_their_own_television_are_sent() {
    match execute(request(), false, OWN) {
        Exchange::Send { request } => {
            assert_eq!(request.method, "PUT");
            assert_eq!(request.url, "https://192.0.2.10:7345/key_command/");
            assert_eq!(request.headers.len(), 1);
        }
        _ => panic!("not sent"),
    }
    assert!(!refused(|r| r.timeout_millis = 250));
    assert!(!refused(|r| r.timeout_millis = 60_000));
    assert!(!refused(|r| r.max_response_bytes = 8 * 1024 * 1024));
    assert!(!refused(|r| r.method = "x-!#$%&'*+.^_`|~9".to_owned()));
}

#[test]
fn requests_out_of_bounds_are_refused() {
    assert!(matches!(execute(request(), true, OWN), Exchange::Refused));
    assert!(refused(|r| r.timeout_millis = 249));
    assert!(refused(|r| r.timeout_millis = 60_001));
    assert!(refused(|r| r.max_response_bytes = 0));
    assert!(refused(|r| r.max_response_bytes = 8 * 1024 * 1024 + 1));
    assert!(refused(|r| r.method = String::new()));
    assert!(refused(|r| r.method = "GET /".to_owned()));
    assert!(refused(|r| r.method = "G\u{e9}T".to_owned()));
    assert!(refused(|r| r.url = "https://192.0.2.11:7345/".to_owned()));
    assert!(refused(|r| r.url = "https://192.0.2.10/".to_owned()));
    assert!(refused(|r| r.url = "https://192.0.2.10:7345/?q".to_owned()));
    assert!(refused(|r| r.url = "https://u@192.0.2.10:7345/".to_owned()));
    assert!(refused(|r| r.url = "http://192.0.2.10:7345/".to_owned()));
}

#[test]
fn the_target_decides_where_a_request_goes() {
    assert!(matches!(execute_toward(request(), false, "a", Ok("a".to_owned())), Exchange::Send { .. }));
    assert!(matches!(execute_toward(request(), false, "a", Ok("b".to_owned())), Exchange::Refused));
    assert!(matches!(execute_toward(request(), false, "a", Err("a".to_owned())), Exchange::Refused));
}

#[test]
fn responses_are_put_together_from_their_parts() {
    let state = answered(404, Some(8)).next(chunk(b"ab\xc3")).next(chunk(b"\xa9")).next(chunk(b"cdef"));
    match state.next(ExchangeEvent::End) {
        Exchange::Done { status, body } => {
            assert_eq!(status, 404);
            assert_eq!(body, "ab\u{e9}cdef");
        }
        _ => panic!("no response"),
    }
    assert!(matches!(answered(200, None).next(ExchangeEvent::End), Exchange::Done { .. }));
}

#[test]
fn responses_that_redirect_or_are_too_long_are_refused() {
    assert!(matches!(answered(300, None), Exchange::Refused));
    assert!(matches!(answered(399, None), Exchange::Refused));
    assert!(matches!(answered(299, None), Exchange::Read { .. }));
    assert!(matches!(answered(400, None), Exchange::Read { .. }));
    assert!(matches!(answered(200, Some(9)), Exchange::Refused));
    assert!(matches!(answered(200, None).next(chunk(b"123456789")), Exchange::Refused));
    assert!(matches!(answered(200, None).next(chunk(b"12345678")), Exchange::Read { .. }));
    let full = answered(200, None).next(chunk(b"12345678"));
    assert!(matches!(full.next(chunk(b"9")), Exchange::Refused));
    let bad = answered(200, None).next(chunk(b"\xff")).next(ExchangeEvent::End);
    assert!(matches!(bad, Exchange::Refused));
}

#[test]
fn cancelled_and_failed_requests_are_refused() {
    assert!(matches!(execute(request(), false, OWN).next(ExchangeEvent::Cancelled), Exchange::Refused));
    assert!(matches!(execute(request(), false, OWN).next(ExchangeEvent::Failed), Exchange::Refused));
    assert!(matches!(answered(200, None).next(ExchangeEvent::Failed), Exchange::Refused));
    let state = answered(200, None).next(ExchangeEvent::Cancelled);
    let state = state.next(chunk(b"x")).next(ExchangeEvent::End);
    assert!(matches!(state, Exchange::Refused));
    let done = answered(200, None).next(ExchangeEvent::End).next(ExchangeEvent::Cancelled);
    assert!(matches!(done, Exchange::Done { .. }));
}

#[test]
fn requests_go_out_as_they_came() {
    let mut planned = request();
    planned.url = "https://tv-1.local:7345/menu/item_2".to_owned();
    planned.headers.insert("Accept".to_owned(), "*/*".to_owned());
    let body = "{\"a\":-1,\"b\":1.5,\"c\":[null,\"x\"],\"d\":18446744073709551615}";
    planned.body = Some(serde_json::from_str(body).unwrap());
    match execute(planned, false, "https://tv-1.local:7345") {
        Exchange::Send { request } => {
            assert_eq!(serde_json::to_string(&request.body.unwrap()).unwrap(), body);
            let headers: Vec<(String, String)> = request.headers.into_iter().collect();
            assert_eq!(headers.len(), 2);
            assert_eq!(headers[0], ("AUTH".to_owned(), "t".to_owned()));
            assert_eq!(headers[1], ("Accept".to_owned(), "*/*".to_owned()));
            assert_eq!((request.timeout_millis, request.max_response_bytes), (5_000, 8));
        }
        _ => panic!("not sent"),
    }
}

#[test]
fn requests_come_to_a_response_or_to_nothing() {
    let done = answered(201, None).next(chunk(b"ok")).next(ExchangeEvent::End);
    assert_eq!(done.answer(), Some((201, "ok".to_owned())));
    assert_eq!(answered(200, None).next(ExchangeEvent::Cancelled).answer(), None);
    assert_eq!(execute(request(), true, OWN).answer(), None);
    assert_eq!(answered(200, None).answer(), None);
}
