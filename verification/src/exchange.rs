//! One request to a television: whether it may be sent, and how its response
//! is taken in.

use std::collections::BTreeMap;
use vstd::prelude::*;

use crate::origin;
use crate::origin::request_origin;
use crate::text;
use crate::text::{same_text, utf8_text};

verus! {

/// The shortest and the longest time that a request may take.
pub const MIN_TIMEOUT_MILLIS: u64 = 250;

pub const MAX_TIMEOUT_MILLIS: u64 = 60_000;

/// How many bytes of a response a request may ask for at most.
pub const MAX_RESPONSE_BYTES: u64 = 8_388_608;

// ---------------------------------------------------------------------------
// Requests
// ---------------------------------------------------------------------------

/// A request as a mathematical value. Its body is carried as it came.
#[verifier::ext_equal]
pub struct RequestView {
    pub method: Seq<char>,
    pub url: Seq<char>,
    pub headers: Map<Seq<char>, Seq<char>>,
    pub body: Option<serde_json::Map<String, serde_json::Value>>,
    pub timeout_millis: u64,
    pub max_response_bytes: u64,
}

/// A request that the core has planned.
#[derive(Clone)]
pub struct PlannedRequest {
    pub method: String,
    pub url: String,
    pub headers: BTreeMap<String, String>,
    pub body: Option<serde_json::Map<String, serde_json::Value>>,
    pub timeout_millis: u64,
    pub max_response_bytes: u64,
}

impl View for PlannedRequest {
    type V = RequestView;

    open spec fn view(&self) -> RequestView {
        RequestView {
            method: self.method@,
            url: self.url@,
            headers: self.headers.deep_view(),
            body: self.body,
            timeout_millis: self.timeout_millis,
            max_response_bytes: self.max_response_bytes,
        }
    }
}

/// Characters that a method may hold.
pub open spec fn is_method_char(c: char) -> bool {
    ||| 'a' <= c <= 'z'
    ||| 'A' <= c <= 'Z'
    ||| '0' <= c <= '9'
    ||| "!#$%&'*+-.^_`|~"@.contains(c)
}

/// Whether a text is an HTTP method.
pub open spec fn is_method(name: Seq<char>) -> bool {
    name.len() > 0 && forall|i: int| 0 <= i < name.len() ==> is_method_char(#[trigger] name[i])
}

/// Calls `reqwest::Method::from_bytes`, which takes a token of one character or
/// more, and reads the method back with `as_str`, which gives the same text.
#[verifier::external_body]
fn checked_method(name: &str) -> (r: Option<String>)
    ensures
        match r {
            Some(method) => is_method(name@) && method@ == name@,
            None => !is_method(name@),
        },
{
    let method = reqwest::Method::from_bytes(name.as_bytes()).ok()?;
    Some(method.as_str().to_owned())
}

/// Whether a request keeps the bounds on its time and on its response.
pub open spec fn within_bounds(request: RequestView) -> bool {
    &&& MIN_TIMEOUT_MILLIS <= request.timeout_millis <= MAX_TIMEOUT_MILLIS
    &&& 0 < request.max_response_bytes <= MAX_RESPONSE_BYTES
}

/// Whether a request may be sent from a session with the origin `own`, when it
/// goes to `target`.
pub open spec fn may_send(
    request: RequestView,
    cancelled: bool,
    own: Seq<char>,
    target: Option<Seq<char>>,
) -> bool {
    !cancelled && within_bounds(request) && target == Some(own) && is_method(request.method)
}

// ---------------------------------------------------------------------------
// States
// ---------------------------------------------------------------------------

/// The state of one request as a mathematical value.
#[allow(inconsistent_fields)]
pub enum ExchangeView {
    Send { request: RequestView },
    Read { status: u16, limit: u64, body: Seq<u8> },
    Done { status: u16, body: Seq<char> },
    Refused,
}

/// The state of one request, which says what is done next.
#[allow(inconsistent_fields)]
pub enum Exchange {
    /// Send the request.
    Send { request: PlannedRequest },
    /// Read the next part of the response, of which `body` has come in.
    Read { status: u16, limit: u64, body: Vec<u8> },
    /// The response is there.
    Done { status: u16, body: String },
    /// There is no response.
    Refused,
}

impl View for Exchange {
    type V = ExchangeView;

    open spec fn view(&self) -> ExchangeView {
        match *self {
            Exchange::Send { request } => ExchangeView::Send { request: request@ },
            Exchange::Read { status, limit, body } => ExchangeView::Read {
                status,
                limit,
                body: body@,
            },
            Exchange::Done { status, body } => ExchangeView::Done { status, body: body@ },
            Exchange::Refused => ExchangeView::Refused,
        }
    }
}

/// What happened to a request as a mathematical value.
pub enum ExchangeEventView {
    Cancelled,
    Failed,
    Answered { status: u16, length: Option<u64> },
    Chunk { bytes: Seq<u8> },
    End,
}

/// What happened to a request.
pub enum ExchangeEvent {
    /// The user cancelled it.
    Cancelled,
    /// The transport failed.
    Failed,
    /// A response began; it may say how long it is.
    Answered { status: u16, length: Option<u64> },
    /// A part of the response came in.
    Chunk { bytes: Vec<u8> },
    /// The response is complete.
    End,
}

impl View for ExchangeEvent {
    type V = ExchangeEventView;

    open spec fn view(&self) -> ExchangeEventView {
        match *self {
            ExchangeEvent::Cancelled => ExchangeEventView::Cancelled,
            ExchangeEvent::Failed => ExchangeEventView::Failed,
            ExchangeEvent::Answered { status, length } => ExchangeEventView::Answered {
                status,
                length,
            },
            ExchangeEvent::Chunk { bytes } => ExchangeEventView::Chunk { bytes: bytes@ },
            ExchangeEvent::End => ExchangeEventView::End,
        }
    }
}

/// The state in which a request starts.
pub open spec fn begun(
    request: RequestView,
    cancelled: bool,
    own: Seq<char>,
    target: Option<Seq<char>>,
) -> ExchangeView {
    if may_send(request, cancelled, own, target) {
        ExchangeView::Send { request }
    } else {
        ExchangeView::Refused
    }
}

/// Whether a response redirects.
pub open spec fn is_redirection(status: u16) -> bool {
    300 <= status < 400
}

/// Whether a response may be read: it does not redirect, and does not say that
/// it is longer than the limit.
pub open spec fn may_read(status: u16, length: Option<u64>, limit: u64) -> bool {
    !is_redirection(status) && (length matches Some(n) ==> n <= limit)
}

/// The state that follows. What a state does not wait for changes nothing.
pub open spec fn exchange_next(state: ExchangeView, event: ExchangeEventView) -> ExchangeView {
    match (state, event) {
        (
            ExchangeView::Send { request },
            ExchangeEventView::Answered { status, length },
        ) => if may_read(status, length, request.max_response_bytes) {
            ExchangeView::Read { status, limit: request.max_response_bytes, body: Seq::empty() }
        } else {
            ExchangeView::Refused
        },
        (ExchangeView::Send { .. }, ExchangeEventView::Cancelled) => ExchangeView::Refused,
        (ExchangeView::Send { .. }, ExchangeEventView::Failed) => ExchangeView::Refused,
        (
            ExchangeView::Read { status, limit, body },
            ExchangeEventView::Chunk { bytes },
        ) => if body.len() + bytes.len() <= limit {
            ExchangeView::Read { status, limit, body: body + bytes }
        } else {
            ExchangeView::Refused
        },
        (
            ExchangeView::Read { status, body, .. },
            ExchangeEventView::End,
        ) => if vstd::utf8::valid_utf8(body) {
            ExchangeView::Done { status, body: vstd::utf8::decode_utf8(body) }
        } else {
            ExchangeView::Refused
        },
        (ExchangeView::Read { .. }, ExchangeEventView::Cancelled) => ExchangeView::Refused,
        (ExchangeView::Read { .. }, ExchangeEventView::Failed) => ExchangeView::Refused,
        _ => state,
    }
}

/// What a request came to: the status and the text of its response, if it has
/// one.
pub open spec fn answer_of(state: ExchangeView) -> Option<(u16, Seq<char>)> {
    match state {
        ExchangeView::Done { status, body } => Some((status, body)),
        _ => None,
    }
}

// ---------------------------------------------------------------------------
// Code
// ---------------------------------------------------------------------------

/// Starts a request from a session with the origin `own`, when its URL gave the
/// origin `target` or an error. The request goes out as it came.
pub fn execute_toward(
    request: PlannedRequest,
    cancelled: bool,
    own: &str,
    target: Result<String, String>,
) -> (r: Exchange)
    ensures
        r@ == begun(
            request@,
            cancelled,
            own@,
            match target {
                Ok(text) => Some(text@),
                Err(_) => None,
            },
        ),
        r matches Exchange::Send { request: sent } ==> sent == request,
{
    if cancelled || request.timeout_millis < MIN_TIMEOUT_MILLIS || request.timeout_millis
        > MAX_TIMEOUT_MILLIS || request.max_response_bytes == 0 || request.max_response_bytes
        > MAX_RESPONSE_BYTES {
        return Exchange::Refused;
    }
    match target {
        Ok(text) => {
            if !same_text(text.as_str(), own) {
                return Exchange::Refused;
            }
        },
        Err(_) => {
            return Exchange::Refused;
        },
    }
    match checked_method(request.method.as_str()) {
        Some(_) => Exchange::Send { request },
        None => Exchange::Refused,
    }
}

/// Starts a request from a session with the origin `own`.
///
/// The request goes out as it came. A URL of `https` with an IPv4 address or a
/// DNS name for its host and at most a path goes to the origin that it starts
/// with; only a name with an encoded label can be refused. A URL of `https` with
/// a user, a query or a fragment is refused.
pub fn execute(request: PlannedRequest, cancelled: bool, own: &str) -> (r: Exchange)
    ensures
        r@ == begun(
            request@,
            cancelled,
            own@,
            origin::target_origin(origin::read_url(origin::url_text(request.url@))),
        ),
        r matches Exchange::Send { request: sent } ==> sent == request,
        forall|host: Seq<char>, port: Option<u16>, tail: Seq<char>|
            request.url@ == #[trigger] origin::address(true, host, port, tail) && origin::is_host(
                text::lowered(host),
            ) && origin::only_path(tail) && origin::authority_fits(host, port) ==> {
                &&& r@ == begun(
                    request@,
                    cancelled,
                    own@,
                    origin::host_origin(host, port, origin::HTTPS_PORT),
                )
                &&& origin::is_plain_host(text::lowered(host)) ==> origin::is_accepted(
                    text::lowered(host),
                )
            },
        forall|host: Seq<char>, port: u16, tail: Seq<char>|
            request.url@ == #[trigger] (origin::origin_of(host, port) + tail) && origin::is_host(
                host,
            ) && origin::only_path(tail) && origin::authority_fits(host, Some(port)) && (
            origin::is_plain_host(host) || origin::is_accepted(host)) ==> r@ == begun(
                request@,
                cancelled,
                own@,
                Some(origin::origin_of(host, port)),
            ),
        origin::asks_more(origin::url_text(request.url@)) ==> r is Refused,
        origin::names_user(origin::url_text(request.url@)) ==> r is Refused,
{
    let target = request_origin(request.url.as_str());
    execute_toward(request, cancelled, own, target)
}

impl Exchange {
    /// Takes in what happened.
    pub fn next(self, event: ExchangeEvent) -> (r: Exchange)
        ensures
            r@ == exchange_next(self@, event@),
    {
        match (self, event) {
            (
                Exchange::Send { request },
                ExchangeEvent::Answered { status, length },
            ) => {
                let limit = request.max_response_bytes;
                let too_long = match length {
                    Some(n) => n > limit,
                    None => false,
                };
                if (300 <= status && status < 400) || too_long {
                    Exchange::Refused
                } else {
                    Exchange::Read { status, limit, body: Vec::new() }
                }
            },
            (Exchange::Send { request: _ }, ExchangeEvent::Cancelled) => Exchange::Refused,
            (Exchange::Send { request: _ }, ExchangeEvent::Failed) => Exchange::Refused,
            (Exchange::Read { status, limit, body }, ExchangeEvent::Chunk { bytes }) => {
                let held = body.len() as u64;
                let more = bytes.len() as u64;
                if held > limit || more > limit - held {
                    Exchange::Refused
                } else {
                    let mut body = body;
                    let mut bytes = bytes;
                    body.append(&mut bytes);
                    Exchange::Read { status, limit, body }
                }
            },
            (Exchange::Read { status, limit: _, body }, ExchangeEvent::End) => {
                match utf8_text(body.as_slice()) {
                    Some(text) => Exchange::Done { status, body: text.to_owned() },
                    None => Exchange::Refused,
                }
            },
            (
                Exchange::Read { status: _, limit: _, body: _ },
                ExchangeEvent::Cancelled,
            ) => Exchange::Refused,
            (
                Exchange::Read { status: _, limit: _, body: _ },
                ExchangeEvent::Failed,
            ) => Exchange::Refused,
            (state, _) => state,
        }
    }

    /// What the request came to.
    pub fn answer(self) -> (r: Option<(u16, String)>)
        ensures
            match r {
                Some((status, body)) => answer_of(self@) == Some((status, body@)),
                None => answer_of(self@) is None,
            },
    {
        match self {
            Exchange::Done { status, body } => Some((status, body)),
            _ => None,
        }
    }
}

// ---------------------------------------------------------------------------
// Laws
// ---------------------------------------------------------------------------

/// The state after all of `events`.
pub open spec fn exchange_after(
    state: ExchangeView,
    events: Seq<ExchangeEventView>,
) -> ExchangeView
    decreases events.len(),
{
    if events.len() == 0 {
        state
    } else {
        exchange_next(exchange_after(state, events.drop_last()), events.last())
    }
}

/// All of `chunks`, one behind the other.
pub open spec fn joined(chunks: Seq<Seq<u8>>) -> Seq<u8>
    decreases chunks.len(),
{
    if chunks.len() == 0 {
        Seq::empty()
    } else {
        joined(chunks.drop_last()) + chunks.last()
    }
}

/// The events in which a response comes in, in parts.
pub open spec fn response_events(
    status: u16,
    length: Option<u64>,
    chunks: Seq<Seq<u8>>,
) -> Seq<ExchangeEventView>
    decreases chunks.len(),
{
    if chunks.len() == 0 {
        seq![ExchangeEventView::Answered { status, length }]
    } else {
        response_events(status, length, chunks.drop_last()).push(
            ExchangeEventView::Chunk { bytes: chunks.last() },
        )
    }
}

proof fn lemma_response_read(
    request: RequestView,
    status: u16,
    length: Option<u64>,
    chunks: Seq<Seq<u8>>,
)
    ensures
        exchange_after(ExchangeView::Send { request }, response_events(status, length, chunks))
            == if may_read(status, length, request.max_response_bytes) && joined(chunks).len()
            <= request.max_response_bytes {
            ExchangeView::Read { status, limit: request.max_response_bytes, body: joined(chunks) }
        } else {
            ExchangeView::Refused
        },
    decreases chunks.len(),
{
    let events = response_events(status, length, chunks);
    let start = ExchangeView::Send { request };
    if chunks.len() == 0 {
        assert(events.drop_last() =~= Seq::empty());
        assert(exchange_after(start, events.drop_last()) == start);
    } else {
        lemma_response_read(request, status, length, chunks.drop_last());
        assert(events.drop_last() =~= response_events(status, length, chunks.drop_last()));
    }
}

/// However a response is cut into parts, a request that was sent ends with its
/// status and its text, if it does not redirect, keeps the limit and is UTF-8,
/// and ends without a response otherwise.
pub proof fn law_response_is_what_came_in(
    request: RequestView,
    status: u16,
    length: Option<u64>,
    chunks: Seq<Seq<u8>>,
)
    ensures
        exchange_after(
            ExchangeView::Send { request },
            response_events(status, length, chunks).push(ExchangeEventView::End),
        ) == if may_read(status, length, request.max_response_bytes) && joined(chunks).len()
            <= request.max_response_bytes && vstd::utf8::valid_utf8(joined(chunks)) {
            ExchangeView::Done { status, body: vstd::utf8::decode_utf8(joined(chunks)) }
        } else {
            ExchangeView::Refused
        },
{
    let events = response_events(status, length, chunks);
    lemma_response_read(request, status, length, chunks);
    assert(events.push(ExchangeEventView::End).drop_last() =~= events);
}

/// Whether a state keeps to the limit of its request.
pub open spec fn keeps_limit(state: ExchangeView, limit: u64) -> bool {
    match state {
        ExchangeView::Send { request } => request.max_response_bytes == limit,
        ExchangeView::Read { status, limit: l, body } => l == limit && body.len() <= limit
            && !is_redirection(status),
        ExchangeView::Done { status, body } => vstd::utf8::encode_utf8(body).len() <= limit
            && !is_redirection(status),
        ExchangeView::Refused => true,
    }
}

/// Whatever happens, no more of a response is held than its request asked for,
/// and no redirection is taken for a response.
pub proof fn law_responses_keep_the_limit(
    request: RequestView,
    cancelled: bool,
    own: Seq<char>,
    target: Option<Seq<char>>,
    events: Seq<ExchangeEventView>,
)
    ensures
        keeps_limit(
            exchange_after(begun(request, cancelled, own, target), events),
            request.max_response_bytes,
        ),
    decreases events.len(),
{
    if events.len() > 0 {
        law_responses_keep_the_limit(request, cancelled, own, target, events.drop_last());
        let before = exchange_after(begun(request, cancelled, own, target), events.drop_last());
        if let ExchangeView::Read { status, limit, body } = before {
            if vstd::utf8::valid_utf8(body) {
                vstd::utf8::decode_utf8_encode_utf8(body);
            }
        }
    }
}

/// A request that is cancelled before its response is complete ends without
/// one, whatever still comes in.
pub proof fn law_cancelled_requests_are_refused(
    state: ExchangeView,
    events: Seq<ExchangeEventView>,
    i: int,
)
    requires
        0 <= i < events.len(),
        events[i] is Cancelled,
        !(exchange_after(state, events.take(i)) is Done),
    ensures
        exchange_after(state, events) is Refused,
    decreases events.len(),
{
    if i == events.len() - 1 {
        assert(events.take(i) =~= events.drop_last());
    } else {
        assert(events.drop_last().take(i) =~= events.take(i));
        law_cancelled_requests_are_refused(state, events.drop_last(), i);
    }
}

/// Nothing that happens can revive a request that was refused.
pub proof fn law_refused_stays_refused(events: Seq<ExchangeEventView>)
    ensures
        exchange_after(ExchangeView::Refused, events) is Refused,
    decreases events.len(),
{
    if events.len() > 0 {
        law_refused_stays_refused(events.drop_last());
    }
}

/// A request leaves a session only if it goes to the session's own host and
/// port, over `https` and without credentials, query or fragment.
pub proof fn law_requests_stay_with_their_television(
    request: RequestView,
    cancelled: bool,
    input: Seq<char>,
    typed: Option<origin::UrlView>,
    requested: Option<origin::UrlView>,
)
    requires
        origin::session_origin(input, typed) is Some,
        begun(
            request,
            cancelled,
            origin::session_origin(input, typed)->0,
            origin::target_origin(requested),
        ) is Send,
    ensures
        requested matches Some(url) && origin::is_https(url) && url.query is None
            && url.fragment is None && url.host == typed->0.host && origin::request_port(url)
            == origin::session_port(input, typed->0),
{
    origin::law_same_origin_is_same_host_and_port(input, typed, requested);
}

/// Whether a character is printed ASCII other than the space and is none of the
/// seventeen that separate the parts of a header.
pub open spec fn is_token_char(c: char) -> bool {
    33 <= c as int && c as int <= 126 && !seq![
        0x22int,
        0x28,
        0x29,
        0x2c,
        0x2f,
        0x3a,
        0x3b,
        0x3c,
        0x3d,
        0x3e,
        0x3f,
        0x40,
        0x5b,
        0x5c,
        0x5d,
        0x7b,
        0x7d,
    ].contains(c as int)
}

/// A method is made of the characters of a token.
pub proof fn law_methods_are_tokens(c: char)
    ensures
        is_method_char(c) <==> is_token_char(c),
{
    let separators = seq![
        0x22int,
        0x28,
        0x29,
        0x2c,
        0x2f,
        0x3a,
        0x3b,
        0x3c,
        0x3d,
        0x3e,
        0x3f,
        0x40,
        0x5b,
        0x5c,
        0x5d,
        0x7b,
        0x7d,
    ];
    let marks = "!#$%&'*+-.^_`|~"@;
    reveal_strlit("!#$%&'*+-.^_`|~");
    assert(separators[0] == 0x22 && separators[1] == 0x28 && separators[2] == 0x29 && separators[3]
        == 0x2c && separators[4] == 0x2f && separators[5] == 0x3a && separators[6] == 0x3b
        && separators[7] == 0x3c && separators[8] == 0x3d && separators[9] == 0x3e
        && separators[10] == 0x3f && separators[11] == 0x40 && separators[12] == 0x5b
        && separators[13] == 0x5c && separators[14] == 0x5d && separators[15] == 0x7b
        && separators[16] == 0x7d);
    assert(marks[0] == '!' && marks[1] == '#' && marks[2] == '$' && marks[3] == '%' && marks[4]
        == '&' && marks[5] == '\'' && marks[6] == '*' && marks[7] == '+' && marks[8] == '-'
        && marks[9] == '.' && marks[10] == '^' && marks[11] == '_' && marks[12] == '`' && marks[13]
        == '|' && marks[14] == '~');
    if marks.contains(c) {
        let i = choose|i: int| 0 <= i < marks.len() && marks[i] == c;
        assert(0 <= i < 15);
    }
    if separators.contains(c as int) {
        let i = choose|i: int| 0 <= i < separators.len() && separators[i] == c as int;
        assert(0 <= i < 17);
    }
}

/// A request goes out exactly if it is not cancelled, may take from a quarter of
/// a second to a minute, asks for one byte to eight mebibytes, goes to the
/// origin of its session, and has a token for its method; and it goes out as it
/// came.
pub proof fn law_which_requests_go_out(
    request: RequestView,
    cancelled: bool,
    own: Seq<char>,
    target: Option<Seq<char>>,
)
    ensures
        begun(request, cancelled, own, target) == if {
            &&& !cancelled
            &&& 250 <= request.timeout_millis
            &&& request.timeout_millis <= 60000
            &&& 1 <= request.max_response_bytes
            &&& request.max_response_bytes <= 8 * 1024 * 1024
            &&& target == Some(own)
            &&& request.method.len() > 0
            &&& forall|i: int|
                0 <= i < request.method.len() ==> is_token_char(#[trigger] request.method[i])
        } {
            ExchangeView::Send { request }
        } else {
            ExchangeView::Refused
        },
{
    let method = request.method;
    assert forall|c: char| is_method_char(c) <==> is_token_char(c) by {
        law_methods_are_tokens(c);
    }
    if forall|i: int| 0 <= i < method.len() ==> is_token_char(#[trigger] method[i]) {
        assert forall|i: int| 0 <= i < method.len() implies is_method_char(#[trigger] method[i]) by {
            assert(is_token_char(method[i]));
        }
    }
    if is_method(method) {
        assert forall|i: int| 0 <= i < method.len() implies is_token_char(#[trigger] method[i]) by {
            assert(is_method_char(method[i]));
        }
    }
}

/// Every response reaches the core with its status and its text, whatever its
/// status, unless it redirects (300 to 399), says that it is longer than the
/// request allows, is longer, or is no text; then there is no response.
pub proof fn law_every_response_but_redirections_is_taken_in(
    request: RequestView,
    status: u16,
    length: Option<u64>,
    chunks: Seq<Seq<u8>>,
)
    ensures
        ({
            let end = exchange_after(
                ExchangeView::Send { request },
                response_events(status, length, chunks).push(ExchangeEventView::End),
            );
            if (status < 300 || status > 399) && (length is None || length->0
                <= request.max_response_bytes) && joined(chunks).len() <= request.max_response_bytes
                && vstd::utf8::valid_utf8(joined(chunks)) {
                &&& end == (ExchangeView::Done {
                    status,
                    body: vstd::utf8::decode_utf8(joined(chunks)),
                })
                &&& answer_of(end) == Some((status, vstd::utf8::decode_utf8(joined(chunks))))
            } else {
                &&& end == ExchangeView::Refused
                &&& answer_of(end) is None
            }
        }),
{
    law_response_is_what_came_in(request, status, length, chunks);
}

/// A text that a television sends comes out as that text, in however many parts
/// its bytes come.
pub proof fn law_texts_come_out_as_they_were_sent(
    request: RequestView,
    status: u16,
    text: Seq<char>,
    chunks: Seq<Seq<u8>>,
)
    requires
        status < 300 || status > 399,
        joined(chunks) == vstd::utf8::encode_utf8(text),
        joined(chunks).len() <= request.max_response_bytes,
    ensures
        answer_of(
            exchange_after(
                ExchangeView::Send { request },
                response_events(status, None, chunks).push(ExchangeEventView::End),
            ),
        ) == Some((status, text)),
{
    vstd::utf8::encode_utf8_valid_utf8(text);
    vstd::utf8::encode_utf8_decode_utf8(text);
    law_every_response_but_redirections_is_taken_in(request, status, None, chunks);
}

/// A request that waits, for its response or for more of it, comes to nothing
/// when it is cancelled or the transport fails.
pub proof fn law_cancelled_and_failed_waits_come_to_nothing(
    request: RequestView,
    status: u16,
    limit: u64,
    body: Seq<u8>,
)
    ensures
        exchange_next(ExchangeView::Send { request }, ExchangeEventView::Cancelled)
            == ExchangeView::Refused,
        exchange_next(ExchangeView::Send { request }, ExchangeEventView::Failed)
            == ExchangeView::Refused,
        exchange_next(ExchangeView::Read { status, limit, body }, ExchangeEventView::Cancelled)
            == ExchangeView::Refused,
        exchange_next(ExchangeView::Read { status, limit, body }, ExchangeEventView::Failed)
            == ExchangeView::Refused,
        answer_of(ExchangeView::Refused) is None,
        answer_of(ExchangeView::Send { request }) is None,
        answer_of(ExchangeView::Read { status, limit, body }) is None,
{
}

/// What has come in of a response is kept, and what comes in next goes behind
/// it, as long as both together keep the limit.
pub proof fn law_parts_go_behind_what_is_held(
    status: u16,
    limit: u64,
    body: Seq<u8>,
    bytes: Seq<u8>,
)
    ensures
        exchange_next(
            ExchangeView::Read { status, limit, body },
            ExchangeEventView::Chunk { bytes },
        ) == if body.len() + bytes.len() <= limit {
            ExchangeView::Read { status, limit, body: body + bytes }
        } else {
            ExchangeView::Refused
        },
        exchange_next(ExchangeView::Read { status, limit, body }, ExchangeEventView::End)
            == if vstd::utf8::valid_utf8(body) {
            ExchangeView::Done { status, body: vstd::utf8::decode_utf8(body) }
        } else {
            ExchangeView::Refused
        },
{
}

/// What a request does not wait for leaves it as it is; so a response, and that
/// there is none, are final.
pub proof fn law_other_events_leave_a_request_as_it_is(
    state: ExchangeView,
    event: ExchangeEventView,
)
    requires
        ({
            ||| state is Done
            ||| state is Refused
            ||| state is Send && (event is Chunk || event is End)
            ||| state is Read && event is Answered
        }),
    ensures
        exchange_next(state, event) == state,
{
}

/// The mathematical value of a request, of its state and of an event holds all
/// that these hold.
pub proof fn law_nothing_of_a_request_is_left_out(
    request: PlannedRequest,
    status: u16,
    limit: u64,
    length: Option<u64>,
    bytes: Vec<u8>,
    body: String,
)
    ensures
        request@.method == request.method@ && request@.url == request.url@ && request@.headers
            == request.headers.deep_view() && request@.body == request.body
            && request@.timeout_millis == request.timeout_millis && request@.max_response_bytes
            == request.max_response_bytes,
        (Exchange::Send { request })@ == (ExchangeView::Send { request: request@ }),
        (Exchange::Read { status, limit, body: bytes })@ == (ExchangeView::Read {
            status,
            limit,
            body: bytes@,
        }),
        (Exchange::Done { status, body })@ == (ExchangeView::Done { status, body: body@ }),
        Exchange::Refused@ == ExchangeView::Refused,
        (ExchangeEvent::Answered { status, length })@ == (ExchangeEventView::Answered {
            status,
            length,
        }),
        (ExchangeEvent::Chunk { bytes })@ == (ExchangeEventView::Chunk { bytes: bytes@ }),
        ExchangeEvent::End@ == ExchangeEventView::End,
        ExchangeEvent::Cancelled@ == ExchangeEventView::Cancelled,
        ExchangeEvent::Failed@ == ExchangeEventView::Failed,
{
}

} // verus!
