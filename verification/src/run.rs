//! Running one operation of the core: the core plans requests, each is executed
//! and answered, until the core returns a result.

use vstd::prelude::*;

use crate::exchange::{PlannedRequest, RequestView};
use crate::json;
use crate::json::{
    as_flag, as_text, as_unsigned, copy_value, member, null_value, parse_json, JsonView,
};
use crate::text::same_text;

verus! {

// ---------------------------------------------------------------------------
// States
// ---------------------------------------------------------------------------

/// The state of an operation as a mathematical value.
#[allow(inconsistent_fields)]
pub enum RunView {
    ClearCancel { operation: Seq<char>, input: Seq<char> },
    LookUpSession { operation: Seq<char>, input: Seq<char> },
    StartCore { operation: Seq<char>, input: Seq<char> },
    Plan { request_id: u32, request: JsonView },
    Execute { request_id: u32, request: RequestView },
    Resolve { request_id: u32, status: u16, body: Seq<char> },
    Reject { request_id: u32 },
    TakeCredential { output: Seq<char> },
    OpenVault { output: Seq<char>, token: Seq<char> },
    StoreCredential { output: Seq<char>, token: Seq<char> },
    Done { output: Seq<char> },
    Failed { message: Seq<char> },
}

/// The state of an operation, which says what is done next.
#[allow(inconsistent_fields)]
pub enum Running {
    /// Take back a cancellation of what ran before.
    ClearCancel { operation: String, input: String },
    /// Look up the session.
    LookUpSession { operation: String, input: String },
    /// Start the core on this operation.
    StartCore { operation: String, input: String },
    /// Read a request from this value.
    Plan { request_id: u32, request: serde_json::Value },
    /// Execute this request.
    Execute { request_id: u32, request: PlannedRequest },
    /// Give the core this response.
    Resolve { request_id: u32, status: u16, body: String },
    /// Tell the core that there is no response.
    Reject { request_id: u32 },
    /// Ask the core for the credential that changed.
    TakeCredential { output: String },
    /// Open the vault.
    OpenVault { output: String, token: String },
    /// Store the credential in the vault.
    StoreCredential { output: String, token: String },
    /// This is the result.
    Done { output: String },
    /// The operation failed.
    Failed { message: String },
}

impl View for Running {
    type V = RunView;

    open spec fn view(&self) -> RunView {
        match *self {
            Running::ClearCancel { operation, input } => RunView::ClearCancel {
                operation: operation@,
                input: input@,
            },
            Running::LookUpSession { operation, input } => RunView::LookUpSession {
                operation: operation@,
                input: input@,
            },
            Running::StartCore { operation, input } => RunView::StartCore {
                operation: operation@,
                input: input@,
            },
            Running::Plan { request_id, request } => RunView::Plan {
                request_id,
                request: json::json_content(request),
            },
            Running::Execute { request_id, request } => RunView::Execute {
                request_id,
                request: request@,
            },
            Running::Resolve { request_id, status, body } => RunView::Resolve {
                request_id,
                status,
                body: body@,
            },
            Running::Reject { request_id } => RunView::Reject { request_id },
            Running::TakeCredential { output } => RunView::TakeCredential { output: output@ },
            Running::OpenVault { output, token } => RunView::OpenVault {
                output: output@,
                token: token@,
            },
            Running::StoreCredential { output, token } => RunView::StoreCredential {
                output: output@,
                token: token@,
            },
            Running::Done { output } => RunView::Done { output: output@ },
            Running::Failed { message } => RunView::Failed { message: message@ },
        }
    }
}

/// The core's answer when it is asked for its credential.
pub enum Credential {
    /// The core did not answer.
    Unavailable,
    /// The core has none.
    Missing,
    Token { token: String },
}

/// What happened as a mathematical value.
pub enum RunEventView {
    Cleared,
    Session { configured: bool },
    Output { output: Option<Seq<char>> },
    Planned { request: Option<RequestView> },
    Executed { answer: Option<(u16, Seq<char>)> },
    Credential { token: Option<Option<Seq<char>>> },
    Vault { opened: bool },
    Stored { stored: bool },
}

/// What happened.
pub enum RunEvent {
    /// The cancellation was taken back.
    Cleared,
    /// The session was looked up.
    Session { configured: bool },
    /// The core returned this output, or was unavailable.
    Output { output: Option<String> },
    /// A request was read, or could not be.
    Planned { request: Option<PlannedRequest> },
    /// The request was executed; without a response if there is no answer.
    Executed { answer: Option<(u16, String)> },
    /// The core was asked for its credential.
    Credential { credential: Credential },
    /// The vault was opened, or could not be.
    Vault { opened: bool },
    /// The credential was stored, or could not be.
    Stored { stored: bool },
}

impl View for RunEvent {
    type V = RunEventView;

    open spec fn view(&self) -> RunEventView {
        match *self {
            RunEvent::Cleared => RunEventView::Cleared,
            RunEvent::Session { configured } => RunEventView::Session { configured },
            RunEvent::Output { output } => RunEventView::Output {
                output: crate::text::option_view(output),
            },
            RunEvent::Planned { request } => RunEventView::Planned {
                request: match request {
                    Some(request) => Some(request@),
                    None => None,
                },
            },
            RunEvent::Executed { answer } => RunEventView::Executed {
                answer: match answer {
                    Some((status, body)) => Some((status, body@)),
                    None => None,
                },
            },
            RunEvent::Credential { credential } => RunEventView::Credential {
                token: match credential {
                    Credential::Unavailable => None,
                    Credential::Missing => Some(None),
                    Credential::Token { token } => Some(Some(token@)),
                },
            },
            RunEvent::Vault { opened } => RunEventView::Vault { opened },
            RunEvent::Stored { stored } => RunEventView::Stored { stored },
        }
    }
}

// ---------------------------------------------------------------------------
// Rules
// ---------------------------------------------------------------------------

/// Whether an output of the core asks for a request.
pub open spec fn asks_for_request(output: JsonView) -> bool {
    output.member("kind"@) matches Some(kind) && kind.text() == Some("request"@)
}

/// Whether an output of the core says that its credential changed.
pub open spec fn credential_changed(output: JsonView) -> bool {
    output.member("credentialChanged"@) matches Some(changed) && changed.bool() == Some(true)
}

/// The number under which the core wants its request answered.
pub open spec fn request_id(output: JsonView) -> Option<u32> {
    match output.member("requestId"@) {
        Some(id) => match id.unsigned() {
            Some(n) if n <= u32::MAX => Some(n as u32),
            _ => None,
        },
        None => None,
    }
}

/// The request that the core wants; null if it gives none.
pub open spec fn wanted_request(output: JsonView) -> JsonView {
    match output.member("request"@) {
        Some(request) => request,
        None => JsonView::Null,
    }
}

/// The state that follows an output of the core, which was read as `parsed`.
pub open spec fn after_output(output: Seq<char>, parsed: Option<JsonView>) -> RunView {
    match parsed {
        None => RunView::Failed { message: "SmartCast core returned invalid output"@ },
        Some(value) => if asks_for_request(value) {
            match request_id(value) {
                Some(id) => RunView::Plan { request_id: id, request: wanted_request(value) },
                None => RunView::Failed {
                    message: "SmartCast core returned an invalid request ID"@,
                },
            }
        } else if credential_changed(value) {
            RunView::TakeCredential { output }
        } else {
            RunView::Done { output }
        },
    }
}

/// Whether a state waits for an output of the core.
pub open spec fn waits_for_core(state: RunView) -> bool {
    state is StartCore || state is Resolve || state is Reject
}

/// The state that follows. What a state does not wait for changes nothing.
pub open spec fn run_next(state: RunView, event: RunEventView) -> RunView {
    match (state, event) {
        (
            RunView::ClearCancel { operation, input },
            RunEventView::Cleared,
        ) => RunView::LookUpSession { operation, input },
        (
            RunView::LookUpSession { operation, input },
            RunEventView::Session { configured },
        ) => if configured {
            RunView::StartCore { operation, input }
        } else {
            RunView::Failed { message: "SmartCast is not configured"@ }
        },
        (
            RunView::Plan { request_id, .. },
            RunEventView::Planned { request },
        ) => match request {
            Some(request) => RunView::Execute { request_id, request },
            None => RunView::Failed { message: "SmartCast core returned an invalid request"@ },
        },
        (
            RunView::Execute { request_id, .. },
            RunEventView::Executed { answer },
        ) => match answer {
            Some((status, body)) => RunView::Resolve { request_id, status, body },
            None => RunView::Reject { request_id },
        },
        (
            RunView::TakeCredential { output },
            RunEventView::Credential { token },
        ) => match token {
            Some(Some(token)) => RunView::OpenVault { output, token },
            Some(None) => RunView::Failed {
                message: "SmartCast pairing did not return a credential"@,
            },
            None => RunView::Failed { message: "SmartCast core is unavailable"@ },
        },
        (RunView::OpenVault { output, token }, RunEventView::Vault { opened }) => if opened {
            RunView::StoreCredential { output, token }
        } else {
            RunView::Failed { message: "SmartCast credential vault is unavailable"@ }
        },
        (RunView::StoreCredential { output, .. }, RunEventView::Stored { stored }) => if stored {
            RunView::Done { output }
        } else {
            RunView::Failed { message: "Could not store SmartCast credential"@ }
        },
        (_, RunEventView::Output { output }) => if waits_for_core(state) {
            match output {
                Some(text) => after_output(text, json::json_read(text)),
                None => RunView::Failed { message: "SmartCast core is unavailable"@ },
            }
        } else {
            state
        },
        _ => state,
    }
}

// ---------------------------------------------------------------------------
// Code
// ---------------------------------------------------------------------------

fn failed(message: &str) -> (r: Running)
    ensures
        r@ == (RunView::Failed { message: message@ }),
{
    Running::Failed { message: message.to_owned() }
}

/// Whether an output of the core asks for a request.
fn is_request(output: &serde_json::Value) -> (r: bool)
    ensures
        r == asks_for_request(json::json_content(*output)),
{
    match member(output, "kind") {
        Some(kind) => match as_text(kind) {
            Some(text) => same_text(text, "request"),
            None => false,
        },
        None => false,
    }
}

/// Whether an output of the core says that its credential changed.
fn changes_credential(output: &serde_json::Value) -> (r: bool)
    ensures
        r == credential_changed(json::json_content(*output)),
{
    match member(output, "credentialChanged") {
        Some(changed) => match as_flag(changed) {
            Some(flag) => flag,
            None => false,
        },
        None => false,
    }
}

/// The number under which the core wants its request answered.
fn id_of_request(output: &serde_json::Value) -> (r: Option<u32>)
    ensures
        r == request_id(json::json_content(*output)),
{
    match member(output, "requestId") {
        Some(id) => match as_unsigned(id) {
            Some(n) => if n <= u32::MAX as u64 {
                Some(n as u32)
            } else {
                None
            },
            None => None,
        },
        None => None,
    }
}

/// Takes in an output of the core that was read as `parsed`.
pub fn output_read(output: String, parsed: Option<serde_json::Value>) -> (r: Running)
    ensures
        r@ == after_output(
            output@,
            match parsed {
                Some(value) => Some(json::json_content(value)),
                None => None,
            },
        ),
{
    let value = match parsed {
        Some(value) => value,
        None => {
            return failed("SmartCast core returned invalid output");
        },
    };
    if is_request(&value) {
        match id_of_request(&value) {
            Some(request_id) => {
                let request = match member(&value, "request") {
                    Some(request) => copy_value(request),
                    None => null_value(),
                };
                Running::Plan { request_id, request }
            },
            None => failed("SmartCast core returned an invalid request ID"),
        }
    } else if changes_credential(&value) {
        Running::TakeCredential { output }
    } else {
        Running::Done { output }
    }
}

/// Takes in an output of the core, or that it was unavailable.
fn core_answered(output: Option<String>) -> (r: Running)
    ensures
        r@ == match output {
            Some(text) => after_output(text@, json::json_read(text@)),
            None => RunView::Failed { message: "SmartCast core is unavailable"@ },
        },
{
    match output {
        Some(text) => {
            let parsed = match parse_json(text.as_str()) {
                Ok(value) => Some(value),
                Err(_) => None,
            };
            output_read(text, parsed)
        },
        None => failed("SmartCast core is unavailable"),
    }
}

/// Begins to run an operation of the core.
pub fn smartcast_run(operation: String, input: String) -> (r: Running)
    ensures
        r@ == (RunView::ClearCancel { operation: operation@, input: input@ }),
{
    Running::ClearCancel { operation, input }
}

impl Running {
    /// Takes in what happened. A request that was read is executed as it came.
    pub fn next(self, event: RunEvent) -> (r: Running)
        ensures
            r@ == run_next(self@, event@),
            (self, event) matches (
                Running::Plan { request_id, .. },
                RunEvent::Planned { request: Some(request) },
            ) ==> r == (Running::Execute { request_id, request }),
    {
        match (self, event) {
            (
                Running::ClearCancel { operation, input },
                RunEvent::Cleared,
            ) => Running::LookUpSession { operation, input },
            (
                Running::LookUpSession { operation, input },
                RunEvent::Session { configured },
            ) => if configured {
                Running::StartCore { operation, input }
            } else {
                failed("SmartCast is not configured")
            },
            (
                Running::StartCore { operation: _, input: _ },
                RunEvent::Output { output },
            ) => core_answered(output),
            (
                Running::Resolve { request_id: _, status: _, body: _ },
                RunEvent::Output { output },
            ) => core_answered(output),
            (Running::Reject { request_id: _ }, RunEvent::Output { output }) => core_answered(
                output,
            ),
            (
                Running::Plan { request_id, request: _ },
                RunEvent::Planned { request },
            ) => match request {
                Some(request) => Running::Execute { request_id, request },
                None => failed("SmartCast core returned an invalid request"),
            },
            (
                Running::Execute { request_id, request: _ },
                RunEvent::Executed { answer },
            ) => match answer {
                Some((status, body)) => Running::Resolve { request_id, status, body },
                None => Running::Reject { request_id },
            },
            (
                Running::TakeCredential { output },
                RunEvent::Credential { credential },
            ) => match credential {
                Credential::Token { token } => Running::OpenVault { output, token },
                Credential::Missing => failed("SmartCast pairing did not return a credential"),
                Credential::Unavailable => failed("SmartCast core is unavailable"),
            },
            (Running::OpenVault { output, token }, RunEvent::Vault { opened }) => if opened {
                Running::StoreCredential { output, token }
            } else {
                failed("SmartCast credential vault is unavailable")
            },
            (
                Running::StoreCredential { output, token: _ },
                RunEvent::Stored { stored },
            ) => if stored {
                Running::Done { output }
            } else {
                failed("Could not store SmartCast credential")
            },
            (state, _) => state,
        }
    }
}

// ---------------------------------------------------------------------------
// Laws
// ---------------------------------------------------------------------------

/// The state after all of `events`.
pub open spec fn run_after(state: RunView, events: Seq<RunEventView>) -> RunView
    decreases events.len(),
{
    if events.len() == 0 {
        state
    } else {
        run_next(run_after(state, events.drop_last()), events.last())
    }
}

/// A result or a failure is final.
pub proof fn law_results_are_final(state: RunView, events: Seq<RunEventView>)
    requires
        state is Done || state is Failed,
    ensures
        run_after(state, events) == state,
    decreases events.len(),
{
    if events.len() > 0 {
        law_results_are_final(state, events.drop_last());
    }
}

/// Whether an output of the core ends an operation, with a credential that
/// changed or without.
pub open spec fn ends_operation(output: Seq<char>, changed: bool) -> bool {
    &&& json::json_read(output) matches Some(value)
    &&& !asks_for_request(value)
    &&& credential_changed(value) == changed
}

/// Each state in which a credential is stored holds an output that said that it
/// changed, and so does a result exactly if one was stored.
pub open spec fn run_lawful(state: RunView, stored: Option<Seq<char>>) -> bool {
    match state {
        RunView::TakeCredential { output } => ends_operation(output, true),
        RunView::OpenVault { output, .. } => ends_operation(output, true),
        RunView::StoreCredential { output, .. } => ends_operation(output, true),
        RunView::Done { output } => ends_operation(output, stored is Some),
        _ => true,
    }
}

/// The token that was stored on the way, if one was.
pub open spec fn stored_token(state: RunView, events: Seq<RunEventView>) -> Option<Seq<char>>
    decreases events.len(),
{
    if events.len() == 0 {
        None
    } else {
        match (run_after(state, events.drop_last()), events.last()) {
            (
                RunView::StoreCredential { token, .. },
                RunEventView::Stored { stored: true },
            ) => Some(token),
            _ => stored_token(state, events.drop_last()),
        }
    }
}

proof fn lemma_nothing_stored_before_the_end(
    operation: Seq<char>,
    input: Seq<char>,
    events: Seq<RunEventView>,
)
    ensures
        ({
            let start = RunView::ClearCancel { operation, input };
            let state = run_after(start, events);
            &&& run_lawful(state, stored_token(start, events))
            &&& !(state is Done) ==> stored_token(start, events) is None
        }),
    decreases events.len(),
{
    if events.len() > 0 {
        lemma_nothing_stored_before_the_end(operation, input, events.drop_last());
    }
}

/// Whatever happens, an operation ends with an output of the core that asks for
/// no request, and a credential was stored on the way exactly if that output
/// says that it changed.
pub proof fn law_changed_credentials_are_stored(
    operation: Seq<char>,
    input: Seq<char>,
    events: Seq<RunEventView>,
)
    ensures
        ({
            let start = RunView::ClearCancel { operation, input };
            run_after(start, events) matches RunView::Done { output } ==> ends_operation(
                output,
                stored_token(start, events) is Some,
            )
        }),
{
    lemma_nothing_stored_before_the_end(operation, input, events);
}

/// The messages with which an operation fails.
pub open spec fn is_failure(message: Seq<char>) -> bool {
    ||| message == "SmartCast is not configured"@
    ||| message == "SmartCast core is unavailable"@
    ||| message == "SmartCast core returned invalid output"@
    ||| message == "SmartCast core returned an invalid request ID"@
    ||| message == "SmartCast core returned an invalid request"@
    ||| message == "SmartCast pairing did not return a credential"@
    ||| message == "SmartCast credential vault is unavailable"@
    ||| message == "Could not store SmartCast credential"@
}

/// Whether the core returned this output.
pub open spec fn returned(output: Seq<char>, events: Seq<RunEventView>) -> bool {
    events.contains(RunEventView::Output { output: Some(output) })
}

/// Whatever happens, the result of an operation is a text that the core
/// returned, and its failure one of a few fixed messages: nothing else that came
/// in, such as a credential, is in either.
pub proof fn law_results_come_from_the_core(
    operation: Seq<char>,
    input: Seq<char>,
    events: Seq<RunEventView>,
)
    ensures
        match run_after(RunView::ClearCancel { operation, input }, events) {
            RunView::TakeCredential { output } => returned(output, events),
            RunView::OpenVault { output, .. } => returned(output, events),
            RunView::StoreCredential { output, .. } => returned(output, events),
            RunView::Done { output } => returned(output, events),
            RunView::Failed { message } => is_failure(message),
            _ => true,
        },
    decreases events.len(),
{
    if events.len() > 0 {
        let earlier = events.drop_last();
        law_results_come_from_the_core(operation, input, earlier);
        assert forall|e: RunEventView| #[trigger] earlier.contains(e) implies events.contains(e) by {
            let i = choose|i: int| 0 <= i < earlier.len() && earlier[i] == e;
            assert(events[i] == e);
        }
        assert(events.contains(events.last())) by {
            assert(events[events.len() - 1] == events.last());
        }
    }
}

/// The core hears of a request under the number that it gave it: the response
/// if there is one, and that there is none otherwise.
pub proof fn law_requests_are_answered_under_their_number(
    output: Seq<char>,
    value: JsonView,
    request: RequestView,
    answer: Option<(u16, Seq<char>)>,
)
    requires
        asks_for_request(value),
        request_id(value) is Some,
    ensures
        run_after(
            after_output(output, Some(value)),
            seq![
                RunEventView::Planned { request: Some(request) },
                RunEventView::Executed { answer },
            ],
        ) == match answer {
            Some((status, body)) => RunView::Resolve {
                request_id: request_id(value)->0,
                status,
                body,
            },
            None => RunView::Reject { request_id: request_id(value)->0 },
        },
{
    let start = after_output(output, Some(value));
    let planned = RunEventView::Planned { request: Some(request) };
    let events = seq![planned, RunEventView::Executed { answer }];
    assert(events.drop_last() =~= seq![planned]);
    assert(events.drop_last().drop_last() =~= Seq::empty());
    assert(run_after(start, events.drop_last().drop_last()) == start);
    assert(run_after(start, events.drop_last()) == run_next(start, planned));
}

/// What is stored in the vault is the credential that the core gave.
pub proof fn law_the_given_credential_is_stored(output: Seq<char>, token: Seq<char>)
    ensures
        run_after(
            RunView::TakeCredential { output },
            seq![
                RunEventView::Credential { token: Some(Some(token)) },
                RunEventView::Vault { opened: true },
            ],
        ) == (RunView::StoreCredential { output, token }),
{
    let start = RunView::TakeCredential { output };
    let given = RunEventView::Credential { token: Some(Some(token)) };
    let events = seq![given, RunEventView::Vault { opened: true }];
    assert(events.drop_last() =~= seq![given]);
    assert(events.drop_last().drop_last() =~= Seq::empty());
    assert(run_after(start, events.drop_last().drop_last()) == start);
    assert(run_after(start, events.drop_last()) == run_next(start, given));
}

/// Without a session, an operation fails and the core is not started.
pub proof fn law_no_session_no_core(operation: Seq<char>, input: Seq<char>)
    ensures
        run_after(
            RunView::ClearCancel { operation, input },
            seq![RunEventView::Cleared, RunEventView::Session { configured: false }],
        ) == (RunView::Failed { message: "SmartCast is not configured"@ }),
{
    let start = RunView::ClearCancel { operation, input };
    let events = seq![RunEventView::Cleared, RunEventView::Session { configured: false }];
    assert(events.drop_last() =~= seq![RunEventView::Cleared]);
    assert(events.drop_last().drop_last() =~= Seq::empty());
    assert(run_after(start, events.drop_last().drop_last()) == start);
    assert(run_after(start, events.drop_last()) == run_next(start, RunEventView::Cleared));
}

/// With a session, the core is started on the operation and the input that were
/// asked for, as they came.
pub proof fn law_the_core_is_started_as_asked(operation: Seq<char>, input: Seq<char>)
    ensures
        run_after(
            RunView::ClearCancel { operation, input },
            seq![RunEventView::Cleared, RunEventView::Session { configured: true }],
        ) == (RunView::StartCore { operation, input }),
{
    let start = RunView::ClearCancel { operation, input };
    let events = seq![RunEventView::Cleared, RunEventView::Session { configured: true }];
    assert(events.drop_last() =~= seq![RunEventView::Cleared]);
    assert(events.drop_last().drop_last() =~= Seq::empty());
    assert(run_after(start, events.drop_last().drop_last()) == start);
    assert(run_after(start, events.drop_last()) == run_next(start, RunEventView::Cleared));
}

/// Whatever happens, an operation that has not been started yet, or is about to
/// be, holds the operation and the input that were asked for.
pub proof fn law_the_operation_is_kept_until_it_starts(
    operation: Seq<char>,
    input: Seq<char>,
    events: Seq<RunEventView>,
)
    ensures
        match run_after(RunView::ClearCancel { operation, input }, events) {
            RunView::ClearCancel { operation: o, input: i } => o == operation && i == input,
            RunView::LookUpSession { operation: o, input: i } => o == operation && i == input,
            RunView::StartCore { operation: o, input: i } => o == operation && i == input,
            _ => true,
        },
    decreases events.len(),
{
    if events.len() > 0 {
        law_the_operation_is_kept_until_it_starts(operation, input, events.drop_last());
    }
}

/// Whether a value is an object with this member.
pub open spec fn holds(value: JsonView, key: Seq<char>, member: JsonView) -> bool {
    value matches JsonView::Object(members) && members.dom().contains(key) && members[key] == member
}

/// An output that is no JSON is a failure.
pub proof fn law_outputs_are_json(output: Seq<char>)
    ensures
        after_output(output, None) == (RunView::Failed {
            message: "SmartCast core returned invalid output"@,
        }),
{
}

/// An output of the kind "request" with a number up to 4294967295 asks for the
/// request that it holds, or for null if it holds none, under that number.
pub proof fn law_requests_are_planned_as_wanted(
    output: Seq<char>,
    value: JsonView,
    text: Seq<char>,
    n: u64,
    request: JsonView,
)
    requires
        holds(value, "kind"@, JsonView::Text("request"@)),
        holds(value, "requestId"@, JsonView::Number { text, unsigned: Some(n) }),
        n <= 4294967295,
    ensures
        after_output(output, Some(value)) matches RunView::Plan { request_id, .. } && request_id
            == n,
        holds(value, "request"@, request) ==> after_output(output, Some(value)) == (RunView::Plan {
            request_id: n as u32,
            request,
        }),
        (forall|member: JsonView| !holds(value, "request"@, member)) ==> after_output(
            output,
            Some(value),
        ) == (RunView::Plan { request_id: n as u32, request: JsonView::Null }),
{
    if value->Object_0.dom().contains("request"@) {
        assert(holds(value, "request"@, value->Object_0["request"@]));
    }
}

/// An output of the kind "request" without such a number is a failure.
pub proof fn law_requests_need_a_number(output: Seq<char>, value: JsonView)
    requires
        holds(value, "kind"@, JsonView::Text("request"@)),
        forall|text: Seq<char>, n: u64|
            n <= 4294967295 ==> !#[trigger] holds(
                value,
                "requestId"@,
                JsonView::Number { text, unsigned: Some(n) },
            ),
    ensures
        after_output(output, Some(value)) == (RunView::Failed {
            message: "SmartCast core returned an invalid request ID"@,
        }),
{
    if value->Object_0.dom().contains("requestId"@) {
        if let JsonView::Number { text, unsigned: Some(n) } = value->Object_0["requestId"@] {
            if n <= 4294967295 {
                assert(holds(value, "requestId"@, JsonView::Number { text, unsigned: Some(n) }));
            }
        }
    }
}

/// Any other output ends the operation, with itself as the result: at once, or
/// after the credential is stored where it says that this changed.
pub proof fn law_other_outputs_are_results(output: Seq<char>, value: JsonView)
    requires
        !holds(value, "kind"@, JsonView::Text("request"@)),
    ensures
        after_output(output, Some(value)) == if holds(
            value,
            "credentialChanged"@,
            JsonView::Bool(true),
        ) {
            RunView::TakeCredential { output }
        } else {
            RunView::Done { output }
        },
{
}

/// An output is taken in whenever the core was asked for one, at the start or
/// with an answer, and a core that gives none is unavailable.
pub proof fn law_outputs_are_taken_in_when_the_core_was_asked(
    state: RunView,
    output: Seq<char>,
)
    requires
        state is StartCore || state is Resolve || state is Reject,
    ensures
        run_next(state, RunEventView::Output { output: Some(output) }) == after_output(
            output,
            json::json_read(output),
        ),
        run_next(state, RunEventView::Output { output: None }) == (RunView::Failed {
            message: "SmartCast core is unavailable"@,
        }),
{
}

/// A request is executed as it was read, and what it came to goes back under the
/// same number: its status and its text, or that there is nothing.
pub proof fn law_requests_are_executed_and_answered(
    request_id: u32,
    wanted: JsonView,
    request: RequestView,
    status: u16,
    body: Seq<char>,
)
    ensures
        run_next(
            RunView::Plan { request_id, request: wanted },
            RunEventView::Planned { request: Some(request) },
        ) == (RunView::Execute { request_id, request }),
        run_next(
            RunView::Plan { request_id, request: wanted },
            RunEventView::Planned { request: None },
        ) == (RunView::Failed { message: "SmartCast core returned an invalid request"@ }),
        run_next(
            RunView::Execute { request_id, request },
            RunEventView::Executed { answer: Some((status, body)) },
        ) == (RunView::Resolve { request_id, status, body }),
        run_next(
            RunView::Execute { request_id, request },
            RunEventView::Executed { answer: None },
        ) == (RunView::Reject { request_id }),
{
}

/// A credential that changed is asked for, and stored as it was given, before
/// the output is the result; each step that fails says so.
pub proof fn law_credentials_are_stored_as_given(output: Seq<char>, token: Seq<char>)
    ensures
        run_next(
            RunView::TakeCredential { output },
            RunEventView::Credential { token: Some(Some(token)) },
        ) == (RunView::OpenVault { output, token }),
        run_next(
            RunView::TakeCredential { output },
            RunEventView::Credential { token: Some(None) },
        ) == (RunView::Failed { message: "SmartCast pairing did not return a credential"@ }),
        run_next(RunView::TakeCredential { output }, RunEventView::Credential { token: None }) == (
        RunView::Failed { message: "SmartCast core is unavailable"@ }),
        run_next(RunView::OpenVault { output, token }, RunEventView::Vault { opened: true }) == (
        RunView::StoreCredential { output, token }),
        run_next(RunView::OpenVault { output, token }, RunEventView::Vault { opened: false }) == (
        RunView::Failed { message: "SmartCast credential vault is unavailable"@ }),
        run_next(RunView::StoreCredential { output, token }, RunEventView::Stored { stored: true })
            == (RunView::Done { output }),
        run_next(
            RunView::StoreCredential { output, token },
            RunEventView::Stored { stored: false },
        ) == (RunView::Failed { message: "Could not store SmartCast credential"@ }),
{
}

/// Whether the core gave this credential.
pub open spec fn gave(token: Seq<char>, events: Seq<RunEventView>) -> bool {
    events.contains(RunEventView::Credential { token: Some(Some(token)) })
}

/// Whatever happens, the credential that is stored, or is about to be, is one
/// that the core gave.
pub proof fn law_only_given_credentials_are_stored(
    operation: Seq<char>,
    input: Seq<char>,
    events: Seq<RunEventView>,
)
    ensures
        match run_after(RunView::ClearCancel { operation, input }, events) {
            RunView::OpenVault { token, .. } => gave(token, events),
            RunView::StoreCredential { token, .. } => gave(token, events),
            _ => true,
        },
        stored_token(RunView::ClearCancel { operation, input }, events) matches Some(token)
            ==> gave(token, events),
    decreases events.len(),
{
    if events.len() > 0 {
        let earlier = events.drop_last();
        law_only_given_credentials_are_stored(operation, input, earlier);
        assert forall|e: RunEventView| #[trigger] earlier.contains(e) implies events.contains(e) by {
            let i = choose|i: int| 0 <= i < earlier.len() && earlier[i] == e;
            assert(events[i] == e);
        }
        assert(events.contains(events.last())) by {
            assert(events[events.len() - 1] == events.last());
        }
    }
}

/// What an operation does not wait for leaves it as it is.
pub proof fn law_other_events_leave_an_operation_as_it_is(state: RunView, event: RunEventView)
    requires
        !({
            ||| state is ClearCancel && event is Cleared
            ||| state is LookUpSession && event is Session
            ||| (state is StartCore || state is Resolve || state is Reject) && event is Output
            ||| state is Plan && event is Planned
            ||| state is Execute && event is Executed
            ||| state is TakeCredential && event is Credential
            ||| state is OpenVault && event is Vault
            ||| state is StoreCredential && event is Stored
        }),
    ensures
        run_next(state, event) == state,
{
}

/// The mathematical value of a state of an operation holds all that it holds.
pub proof fn law_nothing_of_an_operation_is_left_out(
    operation: String,
    input: String,
    request_id: u32,
    value: serde_json::Value,
    request: PlannedRequest,
    status: u16,
    text: String,
    token: String,
)
    ensures
        (Running::ClearCancel { operation, input })@ == (RunView::ClearCancel {
            operation: operation@,
            input: input@,
        }),
        (Running::LookUpSession { operation, input })@ == (RunView::LookUpSession {
            operation: operation@,
            input: input@,
        }),
        (Running::StartCore { operation, input })@ == (RunView::StartCore {
            operation: operation@,
            input: input@,
        }),
        (Running::Plan { request_id, request: value })@ == (RunView::Plan {
            request_id,
            request: json::json_content(value),
        }),
        (Running::Execute { request_id, request })@ == (RunView::Execute {
            request_id,
            request: request@,
        }),
        (Running::Resolve { request_id, status, body: text })@ == (RunView::Resolve {
            request_id,
            status,
            body: text@,
        }),
        (Running::Reject { request_id })@ == (RunView::Reject { request_id }),
        (Running::TakeCredential { output: text })@ == (RunView::TakeCredential { output: text@ }),
        (Running::OpenVault { output: text, token })@ == (RunView::OpenVault {
            output: text@,
            token: token@,
        }),
        (Running::StoreCredential { output: text, token })@ == (RunView::StoreCredential {
            output: text@,
            token: token@,
        }),
        (Running::Done { output: text })@ == (RunView::Done { output: text@ }),
        (Running::Failed { message: text })@ == (RunView::Failed { message: text@ }),
{
}

/// The mathematical value of what happens to an operation holds all of it.
pub proof fn law_nothing_that_happens_to_an_operation_is_left_out(
    text: String,
    request: PlannedRequest,
    status: u16,
    flag: bool,
)
    ensures
        RunEvent::Cleared@ == RunEventView::Cleared,
        (RunEvent::Session { configured: flag })@ == (RunEventView::Session { configured: flag }),
        (RunEvent::Output { output: Some(text) })@ == (RunEventView::Output { output: Some(text@) }),
        (RunEvent::Output { output: None })@ == (RunEventView::Output { output: None }),
        (RunEvent::Planned { request: Some(request) })@ == (RunEventView::Planned {
            request: Some(request@),
        }),
        (RunEvent::Planned { request: None })@ == (RunEventView::Planned { request: None }),
        (RunEvent::Executed { answer: Some((status, text)) })@ == (RunEventView::Executed {
            answer: Some((status, text@)),
        }),
        (RunEvent::Executed { answer: None })@ == (RunEventView::Executed { answer: None }),
        (RunEvent::Credential { credential: Credential::Token { token: text } })@ == (
        RunEventView::Credential { token: Some(Some(text@)) }),
        (RunEvent::Credential { credential: Credential::Missing })@ == (RunEventView::Credential {
            token: Some(None),
        }),
        (RunEvent::Credential { credential: Credential::Unavailable })@ == (
        RunEventView::Credential { token: None }),
        (RunEvent::Vault { opened: flag })@ == (RunEventView::Vault { opened: flag }),
        (RunEvent::Stored { stored: flag })@ == (RunEventView::Stored { stored: flag }),
{
}

} // verus!
