use std::collections::BTreeMap;

use smartcast::exchange::{execute, ExchangeEvent, PlannedRequest};
use smartcast::run::{output_read, smartcast_run, Credential, RunEvent, Running};

fn started() -> Running {
    smartcast_run("op".to_owned(), "in".to_owned())
        .next(RunEvent::Cleared)
        .next(RunEvent::Session { configured: true })
}

fn output(text: &str) -> RunEvent {
    RunEvent::Output { output: Some(text.to_owned()) }
}

fn failure(state: Running) -> String {
    match state {
        Running::Failed { message } => message,
        _ => panic!("no failure"),
    }
}

fn planned() -> PlannedRequest {
    PlannedRequest {
        method: "GET".to_owned(),
        url: "u".to_owned(),
        headers: BTreeMap::new(),
        body: None,
        timeout_millis: 1,
        max_response_bytes: 1,
    }
}

const REQUEST: &str = "{\"kind\":\"request\",\"requestId\":7,\"request\":{\"method\":\"GET\"}}";
const PAIRED: &str = "{\"kind\":\"result\",\"credentialChanged\":true}";

#[test]
fn operations_start_the_core_with_their_input() {
    match started() {
        Running::StartCore { operation, input } => {
            assert_eq!(operation, "op");
            assert_eq!(input, "in");
        }
        _ => panic!("not started"),
    }
    let state = smartcast_run("op".to_owned(), "in".to_owned()).next(RunEvent::Cleared);
    assert_eq!(failure(state.next(RunEvent::Session { configured: false })), "SmartCast is not configured");
}

#[test]
fn requests_are_answered_under_their_number() {
    let state = started().next(output(REQUEST));
    match &state {
        Running::Plan { request_id, request } => {
            assert_eq!(*request_id, 7);
            assert_eq!(request["method"], "GET");
        }
        _ => panic!("no plan"),
    }
    let state = state.next(RunEvent::Planned { request: Some(planned()) });
    let state = state.next(RunEvent::Executed { answer: Some((200, "b".to_owned())) });
    match &state {
        Running::Resolve { request_id, status, body } => {
            assert_eq!((*request_id, *status, body.as_str()), (7, 200, "b"));
        }
        _ => panic!("not resolved"),
    }
    let state = state.next(output(REQUEST)).next(RunEvent::Planned { request: Some(planned()) });
    let state = state.next(RunEvent::Executed { answer: None });
    assert!(matches!(state, Running::Reject { request_id: 7 }));
    match state.next(output("{\"kind\":\"result\"}")) {
        Running::Done { output } => assert_eq!(output, "{\"kind\":\"result\"}"),
        _ => panic!("no result"),
    }
}

#[test]
fn a_request_that_is_not_there_is_null() {
    match started().next(output("{\"kind\":\"request\",\"requestId\":4294967295}")) {
        Running::Plan { request_id, request } => {
            assert_eq!(request_id, u32::MAX);
            assert!(request.is_null());
        }
        _ => panic!("no plan"),
    }
}

#[test]
fn outputs_that_make_no_sense_fail() {
    assert_eq!(failure(started().next(output("{"))), "SmartCast core returned invalid output");
    for id in ["4294967296", "-1", "1.5", "\"7\"", "null"] {
        let text = format!("{{\"kind\":\"request\",\"requestId\":{id}}}");
        assert_eq!(failure(started().next(output(&text))), "SmartCast core returned an invalid request ID");
    }
    assert_eq!(
        failure(started().next(output("{\"kind\":\"request\"}"))),
        "SmartCast core returned an invalid request ID"
    );
    let state = started().next(output(REQUEST));
    assert_eq!(
        failure(state.next(RunEvent::Planned { request: None })),
        "SmartCast core returned an invalid request"
    );
    assert_eq!(
        failure(started().next(RunEvent::Output { output: None })),
        "SmartCast core is unavailable"
    );
}

#[test]
fn other_outputs_are_results() {
    for text in ["3", "[]", "{\"kind\":1}", "{\"credentialChanged\":\"true\"}", "{\"credentialChanged\":false}"] {
        assert!(matches!(started().next(output(text)), Running::Done { .. }));
    }
}

#[test]
fn changed_credentials_are_stored() {
    let token = || RunEvent::Credential { credential: Credential::Token { token: "tok".to_owned() } };
    let state = started().next(output(PAIRED)).next(token()).next(RunEvent::Vault { opened: true });
    match &state {
        Running::StoreCredential { output, token } => {
            assert_eq!(output, PAIRED);
            assert_eq!(token, "tok");
        }
        _ => panic!("not stored"),
    }
    match state.next(RunEvent::Stored { stored: true }) {
        Running::Done { output } => assert_eq!(output, PAIRED),
        _ => panic!("no result"),
    }
    let opened = || started().next(output(PAIRED)).next(token());
    assert_eq!(
        failure(opened().next(RunEvent::Vault { opened: false })),
        "SmartCast credential vault is unavailable"
    );
    assert_eq!(
        failure(opened().next(RunEvent::Vault { opened: true }).next(RunEvent::Stored { stored: false })),
        "Could not store SmartCast credential"
    );
    let asked = |credential: Credential| started().next(output(PAIRED)).next(RunEvent::Credential { credential });
    assert_eq!(failure(asked(Credential::Missing)), "SmartCast pairing did not return a credential");
    assert_eq!(failure(asked(Credential::Unavailable)), "SmartCast core is unavailable");
}

#[test]
fn what_was_read_decides() {
    let value: serde_json::Value = serde_json::from_str(PAIRED).unwrap();
    assert!(matches!(output_read("x".to_owned(), Some(value)), Running::TakeCredential { .. }));
    assert_eq!(failure(output_read("x".to_owned(), None)), "SmartCast core returned invalid output");
    let done = started().next(output("{}")).next(output(REQUEST));
    assert!(matches!(done, Running::Done { .. }));
}

#[test]
fn requests_are_planned_and_executed_as_they_came() {
    let wanted = "{\"a\":-2,\"b\":0.25,\"c\":{\"d\":true}}";
    let text = format!("{{\"kind\":\"request\",\"requestId\":3,\"request\":{wanted}}}");
    let state = started().next(output(&text));
    match &state {
        Running::Plan { request, .. } => assert_eq!(request.to_string(), wanted),
        _ => panic!("no plan"),
    }
    let mut given = planned();
    given.body = Some(serde_json::from_str("{\"x\":-7.5}").unwrap());
    given.headers.insert("n".to_owned(), "v".to_owned());
    match state.next(RunEvent::Planned { request: Some(given) }) {
        Running::Execute { request_id, request } => {
            assert_eq!(request_id, 3);
            assert_eq!((request.method.as_str(), request.url.as_str()), ("GET", "u"));
            assert_eq!(request.headers["n"], "v");
            assert_eq!(request.body.unwrap()["x"].as_f64(), Some(-7.5));
        }
        _ => panic!("not executed"),
    }
}

#[test]
fn cancelling_ends_the_wait_and_lets_nothing_more_out() {
    let own = "https://192.0.2.10:7345";
    let wanted = || {
        let mut request = planned();
        request.url = "https://192.0.2.10:7345/a".to_owned();
        request.timeout_millis = 1_000;
        request
    };
    let state = started().next(output(REQUEST)).next(RunEvent::Planned { request: Some(wanted()) });
    let waiting = execute(wanted(), false, own);
    assert!(matches!(waiting, smartcast::exchange::Exchange::Send { .. }));
    let answer = waiting.next(ExchangeEvent::Cancelled).answer();
    let state = state.next(RunEvent::Executed { answer });
    assert!(matches!(state, Running::Reject { request_id: 7 }));
    let again = "{\"kind\":\"request\",\"requestId\":8}";
    let state = state.next(output(again)).next(RunEvent::Planned { request: Some(wanted()) });
    let state = state.next(RunEvent::Executed { answer: execute(wanted(), true, own).answer() });
    assert!(matches!(state, Running::Reject { request_id: 8 }));
}
