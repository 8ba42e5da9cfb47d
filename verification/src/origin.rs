//! Television origins: the scheme, host and port that a session talks to, read
//! from what a user typed and from the URL of each request.

use vstd::prelude::*;

use crate::measure;
use crate::measure::url_fits;
use crate::text;
use crate::text::{chars_of, contains, decimal_text, find_in, find_last_in, same_text};

verus! {

/// The port that televisions listen on when none was typed.
pub const SMARTCAST_PORT: u16 = 7345;

/// The port of an `https` URL that names none.
pub const HTTPS_PORT: u16 = 443;

/// How many characters the authority of a URL may have.
pub const URL_LIMIT: usize = 0x7fff_ffff;

/// How many slashes may stand behind the scheme of a URL.
pub const SLASH_LIMIT: u64 = 0xffff_ffff;

// ---------------------------------------------------------------------------
// URLs
// ---------------------------------------------------------------------------

/// What the rules for origins read of a URL. The port is the one it names, or
/// the known one of its scheme.
#[verifier::ext_equal]
pub struct UrlView {
    pub scheme: Seq<char>,
    pub username: Seq<char>,
    pub password: Option<Seq<char>>,
    pub host: Option<Seq<char>>,
    pub port: Option<u16>,
    pub path: Seq<char>,
    pub query: Option<Seq<char>>,
    pub fragment: Option<Seq<char>>,
}

/// What the rules for origins read of a URL.
pub struct UrlParts {
    pub scheme: String,
    pub username: String,
    pub password: Option<String>,
    pub host: Option<String>,
    pub port: Option<u16>,
    pub path: String,
    pub query: Option<String>,
    pub fragment: Option<String>,
}

impl View for UrlParts {
    type V = UrlView;

    open spec fn view(&self) -> UrlView {
        UrlView {
            scheme: self.scheme@,
            username: self.username@,
            password: text::option_view(self.password),
            host: text::option_view(self.host),
            port: self.port,
            path: self.path@,
            query: text::option_view(self.query),
            fragment: text::option_view(self.fragment),
        }
    }
}

/// A parsed URL as a mathematical value.
pub open spec fn parts_view(parsed: Option<UrlParts>) -> Option<UrlView> {
    match parsed {
        Some(parts) => Some(parts@),
        None => None,
    }
}

/// The error that `url::Url::parse` returns.
#[verifier::external_type_specification]
#[verifier::external_body]
pub struct ExUrlParseError(url::ParseError);

/// What `url::Url::parse` reads from a text, or nothing where it refuses it.
pub uninterp spec fn parsed_url(input: Seq<char>) -> Option<UrlView>;

/// Whether what is counted of a text has room, so that it can be read as a URL.
pub open spec fn is_readable(input: Seq<char>) -> bool {
    measure::fits(input, URL_LIMIT, SLASH_LIMIT)
}

/// What the text of a URL is read as. A text beyond the limits is not read.
pub open spec fn read_url(input: Seq<char>) -> Option<UrlView> {
    if is_readable(input) {
        parsed_url(input)
    } else {
        None
    }
}

/// Characters of a DNS name in small letters.
pub open spec fn is_name_char(c: char) -> bool {
    'a' <= c <= 'z' || text::is_digit(c) || c == '-' || c == '.'
}

/// Whether a label of a DNS name starts at this index.
pub open spec fn starts_label(name: Seq<char>, i: int) -> bool {
    0 <= i < name.len() && (i == 0 || name[i - 1] == '.')
}

/// Whether no label of a DNS name follows the one at this index; a dot at the
/// end of the name starts none.
pub open spec fn in_last_label(name: Seq<char>, i: int) -> bool {
    forall|j: int| i <= j < name.len() - 1 ==> (#[trigger] name[j]) != '.'
}

/// Whether a label is a number: digits, or "0x" and digits to the base of
/// sixteen.
pub open spec fn is_number(label: Seq<char>) -> bool {
    ||| forall|i: int| 0 <= i < label.len() ==> text::is_digit(#[trigger] label[i])
    ||| {
        &&& 2 <= label.len()
        &&& label[0] == '0'
        &&& label[1] == 'x'
        &&& forall|i: int|
            2 <= i < label.len() ==> text::is_digit(#[trigger] label[i]) || 'a' <= label[i] <= 'f'
    }
}

/// Whether a text is a DNS name in small letters: labels of letters, digits and
/// hyphens with a dot between them, and perhaps one at the end. No label is
/// empty, and the last is no number.
pub open spec fn is_dns_name(name: Seq<char>) -> bool {
    &&& 0 < name.len()
    &&& forall|i: int| 0 <= i < name.len() ==> is_name_char(#[trigger] name[i])
    &&& forall|i: int| #[trigger]
        starts_label(name, i) ==> name[i] != '.' && (in_last_label(name, i) ==> !is_number(
            text::before(name.skip(i), '.'),
        ))
}

/// Whether a label of a DNS name bears the mark of an encoded one, "xn--".
pub open spec fn has_encoded_label(name: Seq<char>) -> bool {
    exists|i: int| #[trigger] starts_label(name, i) && text::occurs_at(name, "xn--"@, i)
}

/// Whether a text is an IPv4 address in dotted decimal.
pub open spec fn is_ipv4(host: Seq<char>) -> bool {
    exists|a: u8, b: u8, c: u8, d: u8| host == #[trigger] crate::ssdp::dotted(a, b, c, d)
}

/// Whether a text is a DNS name in small letters, or an IPv4 address.
pub open spec fn is_host(host: Seq<char>) -> bool {
    is_dns_name(host) || is_ipv4(host)
}

/// Whether a host stands for itself: it is an IPv4 address, or a DNS name in
/// which no label is encoded.
pub open spec fn is_plain_host(host: Seq<char>) -> bool {
    is_ipv4(host) || (is_dns_name(host) && !has_encoded_label(host))
}

/// Whether `url` takes a host. Only one with an encoded label can fail, where
/// the label decodes to nothing valid.
pub open spec fn is_accepted(host: Seq<char>) -> bool {
    parsed_url("https://"@ + host) is Some
}

/// How a port stands behind a host, if it does.
pub open spec fn port_text(port: Option<u16>) -> Seq<char> {
    match port {
        Some(port) => seq![':'] + text::decimal(port as nat),
        None => Seq::empty(),
    }
}

/// Whether a host and a port are short enough to be read.
pub open spec fn authority_fits(host: Seq<char>, port: Option<u16>) -> bool {
    (host + port_text(port)).len() <= URL_LIMIT
}

/// A port, or the one that stands for none.
pub open spec fn port_or(port: Option<u16>, usual: u16) -> u16 {
    match port {
        Some(port) => port,
        None => usual,
    }
}

/// An address: the scheme `https` or none, a host, a port or none, and whatever
/// follows them.
pub open spec fn address(scheme: bool, host: Seq<char>, port: Option<u16>, tail: Seq<char>) -> Seq<
    char,
> {
    (if scheme {
        "https://"@
    } else {
        Seq::empty()
    }) + (host + port_text(port) + tail)
}

/// The slash that may end an address.
pub open spec fn slash_text(slash: bool) -> Seq<char> {
    if slash {
        seq!['/']
    } else {
        Seq::empty()
    }
}

/// Whether a text that follows a host or a port is a path and nothing else.
pub open spec fn only_path(tail: Seq<char>) -> bool {
    &&& tail.len() > 0 ==> tail[0] == '/'
    &&& !tail.contains('?')
    &&& !tail.contains('#')
}

/// What a plain `https` URL is read as.
pub open spec fn plain_url(host: Seq<char>, port: u16, path: Seq<char>) -> UrlView {
    UrlView {
        scheme: "https"@,
        username: Seq::empty(),
        password: None,
        host: Some(host),
        port: Some(port),
        path,
        query: None,
        fragment: None,
    }
}

/// An `https` URL with an IPv4 address or a DNS name for its host, with or
/// without a port, and at most a path behind them, is accepted if its host is,
/// and read as what it says, with the host in small letters.
pub open spec fn reads_hosts(input: Seq<char>, parsed: Option<UrlView>) -> bool {
    forall|host: Seq<char>, port: Option<u16>, tail: Seq<char>|
        input == #[trigger] address(true, host, port, tail) && is_host(text::lowered(host))
            && only_path(tail) && authority_fits(host, port) ==> {
            &&& parsed is Some <==> is_accepted(text::lowered(host))
            &&& is_plain_host(text::lowered(host)) ==> parsed is Some
            &&& parsed matches Some(url) ==> {
                &&& url == plain_url(text::lowered(host), port_or(port, HTTPS_PORT), url.path)
                &&& tail.len() == 0 || tail == seq!['/'] ==> url.path == seq!['/']
            }
        }
}

/// Whether a text is one of `https` from its start.
pub open spec fn says_https(input: Seq<char>) -> bool {
    text::occurs_at(input, "https://"@, 0)
}

/// Whether an `https` URL holds what starts a query or a fragment.
pub open spec fn asks_more(input: Seq<char>) -> bool {
    says_https(input) && (input.contains('?') || input.contains('#'))
}

/// Whether what precedes the `@` at this index of an `https` URL is a user, who
/// starts with a letter or a digit.
pub open spec fn user_before(input: Seq<char>, at: int) -> bool {
    &&& 8 < at < input.len()
    &&& input[at] == '@'
    &&& 'a' <= input[8] <= 'z' || 'A' <= input[8] <= 'Z' || text::is_digit(input[8])
    &&& forall|j: int|
        8 <= j < at ==> (#[trigger] input[j]) != '/' && input[j] != '?' && input[j] != '#'
            && input[j] != '\\'
}

/// Whether an `https` URL names a user.
pub open spec fn names_user(input: Seq<char>) -> bool {
    says_https(input) && exists|at: int| user_before(input, at)
}

/// A query or a fragment is read where there is one.
pub open spec fn reads_query(input: Seq<char>, parsed: Option<UrlView>) -> bool {
    asks_more(input) ==> (parsed matches Some(url) ==> url.query is Some || url.fragment is Some)
}

/// A user is read where there is one.
pub open spec fn reads_user(input: Seq<char>, parsed: Option<UrlView>) -> bool {
    names_user(input) ==> (parsed matches Some(url) ==> url.username.len() > 0)
}

/// What was read of a URL as a mathematical value.
pub open spec fn read_view(r: Result<UrlParts, url::ParseError>) -> Option<UrlView> {
    match r {
        Ok(parts) => Some(parts@),
        Err(_) => None,
    }
}

/// Calls `url::Url::parse` and reads the parts off with `scheme`, `username`,
/// `password`, `host_str`, `port_or_known_default`, `path`, `query` and
/// `fragment`.
///
/// The parts are a function of the text alone. Of an `https` URL three things
/// more are claimed. Where its host is an IPv4 address in dotted decimal, or a
/// DNS name whose labels are of ASCII letters, digits and hyphens, none of them
/// empty and the last no number, with or without a port, and with at most a path
/// behind them, then whether it is accepted depends on the host alone and not on
/// the case of its letters; it is accepted if no label has "xn--" in front; and
/// where it is, each part is the one that stands in it, with capital letters of
/// the host made small, 443 for a port that is not there and "/" for a path that
/// is not there. What a longer path is read as is not said, nor which labels
/// with "xn--" in front are accepted. Of any `https` URL that is accepted, a `?`
/// or a `#` in it gives a query or a fragment, and a user in front of an `@`
/// gives a username.
///
/// `url` counts the characters of the authority in 32 bits with a sign, and the
/// slashes behind the scheme in 32 bits without one.
#[verifier::external_body]
fn parse_url(input: &str) -> (r: Result<UrlParts, url::ParseError>)
    requires
        is_readable(input@),
    ensures
        read_view(r) == parsed_url(input@),
        reads_hosts(input@, read_view(r)),
        reads_query(input@, read_view(r)),
        reads_user(input@, read_view(r)),
{
    let url = url::Url::parse(input)?;
    Ok(UrlParts {
        scheme: url.scheme().to_owned(),
        username: url.username().to_owned(),
        password: url.password().map(str::to_owned),
        host: url.host_str().map(str::to_owned),
        port: url.port_or_known_default(),
        path: url.path().to_owned(),
        query: url.query().map(str::to_owned),
        fragment: url.fragment().map(str::to_owned),
    })
}

// ---------------------------------------------------------------------------
// Rules
// ---------------------------------------------------------------------------

/// What a typed address is read as: a text without a scheme is one of `https`.
pub open spec fn url_text(input: Seq<char>) -> Seq<char> {
    if text::find(input, "://"@) is Some {
        input
    } else {
        "https://"@ + input
    }
}

/// Whether a URL can name a television: `https`, no credentials, and a host.
pub open spec fn is_https(url: UrlView) -> bool {
    url.scheme == "https"@ && url.username.len() == 0 && url.password is None && url.host is Some
}

/// The URL that was read, if it can name a television.
pub open spec fn https_url(parsed: Option<UrlView>) -> Option<UrlView> {
    match parsed {
        Some(url) => if is_https(url) {
            Some(url)
        } else {
            None
        },
        None => None,
    }
}

/// A host as it stands in an origin: in brackets if it holds a colon. An IPv6
/// host of a URL has its own brackets already and gets a second pair, in the
/// origin of a session as in that of a request.
pub open spec fn bracketed(host: Seq<char>) -> Seq<char> {
    if host.contains(':') {
        seq!['['] + host + seq![']']
    } else {
        host
    }
}

/// The text of an origin, which always names its port.
pub open spec fn origin_of(host: Seq<char>, port: u16) -> Seq<char> {
    "https://"@ + bracketed(host) + seq![':'] + text::decimal(port as nat)
}

/// The part of a typed address between its scheme and its first slash.
pub open spec fn authority(input: Seq<char>) -> Seq<char> {
    text::before(
        match text::find(input, "://"@) {
            Some(i) => input.skip(i + 3),
            None => input,
        },
        '/',
    )
}

/// Whether an authority names a port: behind the bracket that closes an IPv6
/// host, or else behind its last colon, as digits.
pub open spec fn names_port(authority: Seq<char>) -> bool {
    if authority.len() > 0 && authority[0] == '[' {
        match text::find(authority, seq![']']) {
            Some(end) => end + 1 < authority.len() && authority[end + 1] == ':',
            None => false,
        }
    } else {
        match text::find_last(authority, ':') {
            Some(i) => i + 1 < authority.len() && forall|j: int|
                i < j < authority.len() ==> text::is_digit(#[trigger] authority[j]),
            None => false,
        }
    }
}

/// The port of a session for a typed address: a port that was typed is kept,
/// even if it is the usual one of the scheme.
pub open spec fn session_port(input: Seq<char>, url: UrlView) -> u16 {
    if names_port(authority(input)) {
        match url.port {
            Some(port) => port,
            None => SMARTCAST_PORT,
        }
    } else {
        SMARTCAST_PORT
    }
}

/// The origin of a session for a typed address that was read as `parsed`; none
/// if the address says more than an origin does.
pub open spec fn session_origin(input: Seq<char>, parsed: Option<UrlView>) -> Option<Seq<char>> {
    match https_url(parsed) {
        Some(url) => if url.path == seq!['/'] && url.query is None && url.fragment is None {
            Some(origin_of(url.host->0, session_port(input, url)))
        } else {
            None
        },
        None => None,
    }
}

/// The port that a request goes to.
pub open spec fn request_port(url: UrlView) -> u16 {
    match url.port {
        Some(port) => port,
        None => HTTPS_PORT,
    }
}

/// The origin that a request goes to whose URL was read as `parsed`; its path
/// plays no part.
pub open spec fn target_origin(parsed: Option<UrlView>) -> Option<Seq<char>> {
    match https_url(parsed) {
        Some(url) => if url.query is None && url.fragment is None {
            Some(origin_of(url.host->0, request_port(url)))
        } else {
            None
        },
        None => None,
    }
}

/// The origin that an IPv4 address or a DNS name stands for, with this port or
/// else the usual one, if the host is accepted.
pub open spec fn host_origin(host: Seq<char>, port: Option<u16>, usual: u16) -> Option<Seq<char>> {
    if is_accepted(text::lowered(host)) {
        Some(origin_of(text::lowered(host), port_or(port, usual)))
    } else {
        None
    }
}

/// Whether a result is this text, or the one error that origins know.
pub open spec fn origin_result(r: Result<String, String>, origin: Option<Seq<char>>) -> bool {
    match r {
        Ok(text) => origin == Some(text@),
        Err(message) => origin is None && message@ == "Invalid SmartCast TV origin"@,
    }
}

// ---------------------------------------------------------------------------
// Code
// ---------------------------------------------------------------------------

fn invalid_origin() -> (r: String)
    ensures
        r@ == "Invalid SmartCast TV origin"@,
{
    "Invalid SmartCast TV origin".to_owned()
}

/// Keeps a URL that can name a television.
pub fn accept_https(parsed: Option<UrlParts>) -> (r: Result<UrlParts, String>)
    ensures
        match r {
            Ok(parts) => parsed == Some(parts) && is_https(parts@),
            Err(message) => https_url(parts_view(parsed)) is None && message@
                == "Invalid SmartCast TV origin"@,
        },
{
    match parsed {
        Some(parts) => {
            if same_text(parts.scheme.as_str(), "https") && parts.username.as_str().is_empty()
                && parts.password.is_none() && parts.host.is_some() {
                Ok(parts)
            } else {
                Err(invalid_origin())
            }
        },
        None => Err(invalid_origin()),
    }
}

/// Reads a typed address as a URL that can name a television. One that is beyond
/// the limits is refused.
pub fn parse_https(input: &str) -> (r: Result<UrlParts, String>)
    ensures
        match r {
            Ok(parts) => https_url(read_url(url_text(input@))) == Some(parts@),
            Err(message) => https_url(read_url(url_text(input@))) is None && message@
                == "Invalid SmartCast TV origin"@,
        },
        reads_hosts(url_text(input@), read_url(url_text(input@))),
        asks_more(url_text(input@)) ==> (r matches Ok(parts) ==> parts@.query is Some
            || parts@.fragment is Some),
        names_user(url_text(input@)) ==> r is Err,
{
    let full = if contains(input, "://") {
        input.to_owned()
    } else {
        "https://".to_owned().concat(input)
    };
    if !url_fits(full.as_str(), URL_LIMIT, SLASH_LIMIT) {
        proof {
            assert forall|host: Seq<char>, port: Option<u16>, tail: Seq<char>|
                full@ == #[trigger] address(true, host, port, tail) && is_host(text::lowered(host))
                    && only_path(tail) && authority_fits(host, port) implies false by {
                lemma_address_fits(host, port, tail);
            }
        }
        return Err(invalid_origin());
    }
    let parsed = match parse_url(full.as_str()) {
        Ok(parts) => Some(parts),
        Err(_) => None,
    };
    accept_https(parsed)
}

/// The text of the origin with the host of `url` and this port.
pub fn origin_string(url: &UrlParts, port: u16) -> (r: Result<String, String>)
    ensures
        origin_result(
            r,
            match url@.host {
                Some(host) => Some(origin_of(host, port)),
                None => None,
            },
        ),
{
    proof {
        reveal_strlit(":");
        reveal_strlit("[");
        reveal_strlit("]");
        assert(":"@ =~= seq![':']);
        assert("["@ =~= seq!['[']);
        assert("]"@ =~= seq![']']);
    }
    match &url.host {
        Some(host) => {
            let mut r = "https://".to_owned();
            let colon = contains(host.as_str(), ":");
            proof {
                lemma_contains(host@, ':');
            }
            if colon {
                r.append("[");
                r.append(host.as_str());
                r.append("]");
                assert(r@ =~= "https://"@ + bracketed(host@));
            } else {
                r.append(host.as_str());
            }
            r.append(":");
            r.append(decimal_text(port).as_str());
            Ok(r)
        },
        None => Err(invalid_origin()),
    }
}

proof fn lemma_contains(s: Seq<char>, c: char)
    ensures
        text::find(s, seq![c]) is Some <==> s.contains(c),
{
    text::lemma_find(s, seq![c]);
    if let Some(i) = text::find(s, seq![c]) {
        assert(s.subrange(i, i + 1)[0] == c);
        assert(s[i] == c);
    }
    if s.contains(c) {
        let j = choose|j: int| 0 <= j < s.len() && s[j] == c;
        assert(s.subrange(j, j + 1) =~= seq![c]);
        assert(text::occurs_at(s, seq![c], j));
    }
}

/// Whether a typed address names a port.
fn port_typed(input: &str) -> (r: bool)
    ensures
        r == names_port(authority(input@)),
{
    let cs = chars_of(input);
    let n = cs.len();
    proof {
        reveal_strlit("://");
        reveal_strlit("/");
        reveal_strlit("]");
        assert("/"@ =~= seq!['/']);
        assert("]"@ =~= seq![']']);
        assert(cs@.subrange(0, n as int) =~= input@);
    }
    let start = match find_in(&cs, 0, n, "://") {
        Some(i) => i + 3,
        None => 0,
    };
    let ghost rest = cs@.subrange(start as int, n as int);
    assert(rest =~= match text::find(input@, "://"@) {
        Some(i) => input@.skip(i + 3),
        None => input@,
    });
    let end = match find_in(&cs, start, n, "/") {
        Some(end) => end,
        None => n,
    };
    let ghost auth = cs@.subrange(start as int, end as int);
    assert(auth =~= text::before(rest, '/'));
    if start < end && cs[start] == '[' {
        match find_in(&cs, start, end, "]") {
            Some(close) => close + 1 < end && cs[close + 1] == ':',
            None => false,
        }
    } else {
        match find_last_in(&cs, start, end, ':') {
            Some(colon) => {
                let mut i: usize = colon + 1;
                while i < end
                    invariant
                        start <= colon < i <= end <= cs.len(),
                        auth == cs@.subrange(start as int, end as int),
                        auth == authority(input@),
                        auth[0] != '[',
                        text::find_last(auth, ':') == Some(colon - start),
                        forall|j: int|
                            colon - start < j < i - start ==> text::is_digit(#[trigger] auth[j]),
                    decreases end - i,
                {
                    if !('0' <= cs[i] && cs[i] <= '9') {
                        assert(!text::is_digit(auth[i - start]));
                        return false;
                    }
                    i = i + 1;
                }
                colon + 1 < end
            },
            None => false,
        }
    }
}

/// The origin of a session for a typed address that was read as `parsed`.
pub fn configured_origin_of(input: &str, parsed: Option<UrlParts>) -> (r: Result<String, String>)
    ensures
        origin_result(r, session_origin(input@, parts_view(parsed))),
{
    proof {
        reveal_strlit("/");
        assert("/"@ =~= seq!['/']);
    }
    match accept_https(parsed) {
        Ok(url) => {
            if !same_text(url.path.as_str(), "/") || url.query.is_some() || url.fragment.is_some() {
                return Err(invalid_origin());
            }
            let port = if port_typed(input) {
                match url.port {
                    Some(port) => port,
                    None => SMARTCAST_PORT,
                }
            } else {
                SMARTCAST_PORT
            };
            origin_string(&url, port)
        },
        Err(message) => Err(message),
    }
}

/// The origin that a request goes to whose URL was read as `parsed`.
pub fn request_origin_of(parsed: Option<UrlParts>) -> (r: Result<String, String>)
    ensures
        origin_result(r, target_origin(parts_view(parsed))),
{
    match accept_https(parsed) {
        Ok(url) => {
            if url.query.is_some() || url.fragment.is_some() {
                return Err(invalid_origin());
            }
            let port = match url.port {
                Some(port) => port,
                None => HTTPS_PORT,
            };
            origin_string(&url, port)
        },
        Err(message) => Err(message),
    }
}

proof fn lemma_decimal_digits(n: nat)
    ensures
        text::decimal(n).len() > 0,
        forall|i: int| 0 <= i < text::decimal(n).len() ==> text::is_digit(#[trigger] text::decimal(n)[i]),
    decreases n,
{
    if n >= 10 {
        lemma_decimal_digits(n / 10);
    }
}

proof fn lemma_dotted_chars(a: u8, b: u8, c: u8, d: u8)
    ensures
        crate::ssdp::dotted(a, b, c, d).len() > 0,
        text::is_digit(crate::ssdp::dotted(a, b, c, d)[0]),
        forall|i: int|
            0 <= i < crate::ssdp::dotted(a, b, c, d).len() ==> text::is_digit(
                #[trigger] crate::ssdp::dotted(a, b, c, d)[i],
            ) || crate::ssdp::dotted(a, b, c, d)[i] == '.',
{
    lemma_decimal_digits(a as nat);
    lemma_decimal_digits(b as nat);
    lemma_decimal_digits(c as nat);
    lemma_decimal_digits(d as nat);
}

proof fn lemma_absent(s: Seq<char>, c: char)
    requires
        !s.contains(c),
    ensures
        text::before(s, c) == s,
        text::find_last(s, c) is None,
{
    lemma_contains(s, c);
    text::lemma_find_last(s, c);
}

/// The characters of a host that is read as it stands.
proof fn lemma_name_chars(host: Seq<char>)
    requires
        is_host(host),
    ensures
        0 < host.len(),
        forall|i: int| 0 <= i < host.len() ==> is_name_char(#[trigger] host[i]),
{
    if !is_dns_name(host) {
        let (a, b, c, d) = choose|a: u8, b: u8, c: u8, d: u8|
            host == #[trigger] crate::ssdp::dotted(a, b, c, d);
        lemma_dotted_chars(a, b, c, d);
    }
}

/// A host in any case holds nothing that ends one.
proof fn lemma_host_chars(host: Seq<char>)
    requires
        is_host(text::lowered(host)),
    ensures
        0 < host.len(),
        !host.contains(':'),
        !host.contains('/'),
        host[0] != '[',
        !text::lowered(host).contains(':'),
        forall|i: int|
            0 <= i < host.len() ==> !measure::is_control(#[trigger] host[i])
                && !measure::ends_authority(host[i]),
{
    let low = text::lowered(host);
    lemma_name_chars(low);
    assert forall|i: int| 0 <= i < host.len() implies (#[trigger] host[i]) != ':' && host[i] != '/'
        && host[i] != '[' && !measure::is_control(host[i]) && !measure::ends_authority(host[i]) by {
        assert(low[i] == text::ascii_lower(host[i]));
        assert(is_name_char(low[i]));
    }
}

/// An address whose host and port are short enough can be read.
proof fn lemma_address_fits(host: Seq<char>, port: Option<u16>, tail: Seq<char>)
    requires
        is_host(text::lowered(host)),
        only_path(tail),
        authority_fits(host, port),
    ensures
        is_readable(address(true, host, port, tail)),
{
    let front = host + port_text(port);
    lemma_host_chars(host);
    if let Some(port) = port {
        lemma_decimal_digits(port as nat);
    }
    assert forall|k: int| 0 <= k < front.len() implies !measure::is_control(#[trigger] front[k])
        && !measure::ends_authority(front[k]) by {
        if k < host.len() {
            assert(front[k] == host[k]);
        } else {
            assert(front[k] == port_text(port)[k - host.len()]);
        }
    }
    measure::lemma_fits(front, tail, URL_LIMIT, SLASH_LIMIT);
}

/// A host that is read as it stands has no capital letters.
proof fn lemma_host_is_lowered(host: Seq<char>)
    requires
        is_host(host),
    ensures
        text::lowered(host) == host,
{
    lemma_name_chars(host);
    assert(text::lowered(host) =~= host);
}

/// A text of `https` holds its scheme.
proof fn lemma_scheme(rest: Seq<char>)
    ensures
        text::find("https://"@ + rest, "://"@) == Some(5int),
        ("https://"@ + rest).skip(8) == rest,
{
    let url = "https://"@ + rest;
    reveal_strlit("://");
    reveal_strlit("https://");
    assert(url.subrange(5, 8) =~= "://"@);
    assert forall|j: int| 0 <= j < 5 implies !text::occurs_at(url, "://"@, j) by {
        if text::occurs_at(url, "://"@, j) {
            assert(url.subrange(j, j + 3)[0] == url[j]);
            assert(url[j] == "https://"@[j]);
        }
    }
    text::lemma_find_is(url, "://"@, 5);
    assert(url.skip(8) =~= rest);
}

/// The authority of an address is its host and its port, and names a port if
/// there is one.
proof fn lemma_authority(host: Seq<char>, port: Option<u16>, tail: Seq<char>)
    requires
        is_host(text::lowered(host)),
        only_path(tail),
    ensures
        text::before(host + port_text(port) + tail, '/') == host + port_text(port),
        names_port(host + port_text(port)) == port is Some,
{
    let front = host + port_text(port);
    let rest = front + tail;
    lemma_host_chars(host);
    if let Some(port) = port {
        lemma_decimal_digits(port as nat);
    }
    assert forall|j: int| 0 <= j < front.len() implies (#[trigger] front[j]) != '/' by {
        if j < host.len() {
            assert(front[j] == host[j]);
        } else {
            assert(front[j] == port_text(port)[j - host.len()]);
        }
    }
    if tail.len() == 0 {
        assert(rest =~= front);
        lemma_absent(rest, '/');
    } else {
        let n = front.len() as int;
        assert(rest.subrange(n, n + 1) =~= seq!['/']);
        assert forall|j: int| 0 <= j < n implies !text::occurs_at(rest, seq!['/'], j) by {
            assert(rest.subrange(j, j + 1)[0] == front[j]);
        }
        text::lemma_find_is(rest, seq!['/'], n);
        assert(rest.take(n) =~= front);
    }
    assert(front[0] == host[0]);
    match port {
        None => {
            assert(front =~= host);
            lemma_absent(host, ':');
        },
        Some(port) => {
            let number = text::decimal(port as nat);
            let n = host.len() as int;
            text::lemma_find_last(front, ':');
            assert(front[n] == ':');
            assert forall|j: int| n < j < front.len() implies text::is_digit(#[trigger] front[j]) by {
                assert(front[j] == number[j - n - 1]);
            }
        },
    }
}

/// An address is read as one of `https`, and names a port if it holds one.
proof fn lemma_address(scheme: bool, host: Seq<char>, port: Option<u16>, tail: Seq<char>)
    requires
        is_host(text::lowered(host)),
        only_path(tail),
        scheme || tail.len() <= 1,
    ensures
        url_text(address(scheme, host, port, tail)) == address(true, host, port, tail),
        names_port(authority(address(scheme, host, port, tail))) == port is Some,
{
    let front = host + port_text(port);
    let rest = front + tail;
    let input = address(scheme, host, port, tail);
    lemma_authority(host, port, tail);
    lemma_scheme(rest);
    if !scheme {
        assert(input =~= rest);
        lemma_host_chars(host);
        if let Some(port) = port {
            lemma_decimal_digits(port as nat);
        }
        reveal_strlit("://");
        assert forall|j: int| !text::occurs_at(rest, "://"@, j) by {
            if text::occurs_at(rest, "://"@, j) {
                assert(rest.subrange(j, j + 3)[1] == rest[j + 1]);
                assert(rest.subrange(j, j + 3)[2] == rest[j + 2]);
                let k = j + 1;
                if k < host.len() {
                    assert(rest[k] == host[k]);
                } else if k < front.len() {
                    assert(rest[k] == port_text(port)[k - host.len()]);
                }
            }
        }
        text::lemma_find_none(rest, "://"@);
    }
}

/// An origin is the address that says all of it and no more.
proof fn lemma_origin_is_address(host: Seq<char>, port: u16, tail: Seq<char>)
    requires
        is_host(host),
    ensures
        origin_of(host, port) + tail == address(true, host, Some(port), tail),
{
    lemma_host_is_lowered(host);
    lemma_host_chars(host);
    assert(origin_of(host, port) + tail =~= address(true, host, Some(port), tail));
}

/// The origin of a session for a typed address.
///
/// An IPv4 address or a DNS name gives the origin with that host in small
/// letters, and with the port behind it or else the televisions' own, whether or
/// not `https://` stands before it and a slash behind; so an origin gives
/// itself. Only a name with an encoded label can be refused. An address of
/// `https` with a user, a query or a fragment is refused.
pub fn configured_origin(input: &str) -> (r: Result<String, String>)
    ensures
        origin_result(r, session_origin(input@, read_url(url_text(input@)))),
        forall|scheme: bool, host: Seq<char>, port: Option<u16>, slash: bool|
            input@ == #[trigger] address(scheme, host, port, slash_text(slash)) && is_host(
                text::lowered(host),
            ) && authority_fits(host, port) ==> {
                &&& origin_result(r, host_origin(host, port, SMARTCAST_PORT))
                &&& is_plain_host(text::lowered(host)) ==> r is Ok
            },
        forall|host: Seq<char>, port: u16|
            input@ == #[trigger] origin_of(host, port) && is_host(host) && authority_fits(
                host,
                Some(port),
            ) && (is_plain_host(host) || is_accepted(host)) ==> {
                &&& r matches Ok(origin)
                &&& origin@ == input@
            },
        asks_more(url_text(input@)) ==> r is Err,
        names_user(url_text(input@)) ==> r is Err,
{
    let parsed = parse_https(input);
    proof {
        let read = read_url(url_text(input@));
        assert forall|scheme: bool, host: Seq<char>, port: Option<u16>, slash: bool|
            input@ == #[trigger] address(scheme, host, port, slash_text(slash)) && is_host(
                text::lowered(host),
            ) && authority_fits(host, port) implies session_origin(input@, read) == host_origin(
            host,
            port,
            SMARTCAST_PORT,
        ) && (is_plain_host(text::lowered(host)) ==> session_origin(input@, read) is Some) by {
            lemma_address(scheme, host, port, slash_text(slash));
            law_scheme_and_slash_play_no_part(scheme, host, port, slash, read);
        }
        assert forall|host: Seq<char>, port: u16|
            input@ == #[trigger] origin_of(host, port) && is_host(host) && authority_fits(
                host,
                Some(port),
            ) && (is_plain_host(host) || is_accepted(host)) implies session_origin(input@, read)
            == Some(input@) by {
            lemma_origin_text(host, port);
            law_origins_are_their_own_addresses(host, port, read);
        }
    }
    match parsed {
        Ok(url) => configured_origin_of(input, Some(url)),
        Err(message) => Err(message),
    }
}

/// The origin that a request goes to.
///
/// A URL of `https` with an IPv4 address or a DNS name for its host and at most
/// a path goes to the origin with that host in small letters, and with the port
/// behind it or else the known one of `https`; so a path behind an origin goes
/// to that origin. Only a name with an encoded label can be refused. A URL of
/// `https` with a user, a query or a fragment is refused.
pub fn request_origin(input: &str) -> (r: Result<String, String>)
    ensures
        origin_result(r, target_origin(read_url(url_text(input@)))),
        forall|host: Seq<char>, port: Option<u16>, tail: Seq<char>|
            input@ == #[trigger] address(true, host, port, tail) && is_host(text::lowered(host))
                && only_path(tail) && authority_fits(host, port) ==> {
                &&& origin_result(r, host_origin(host, port, HTTPS_PORT))
                &&& is_plain_host(text::lowered(host)) ==> r is Ok
            },
        forall|host: Seq<char>, port: u16, tail: Seq<char>|
            input@ == #[trigger] (origin_of(host, port) + tail) && is_host(host) && only_path(tail)
                && authority_fits(host, Some(port)) && (is_plain_host(host) || is_accepted(host))
                ==> {
                &&& r matches Ok(origin)
                &&& origin@ == origin_of(host, port)
            },
        asks_more(url_text(input@)) ==> r is Err,
        names_user(url_text(input@)) ==> r is Err,
{
    let parsed = parse_https(input);
    proof {
        let read = read_url(url_text(input@));
        assert forall|host: Seq<char>, port: Option<u16>, tail: Seq<char>|
            input@ == #[trigger] address(true, host, port, tail) && is_host(text::lowered(host))
                && only_path(tail) && authority_fits(host, port) implies target_origin(read)
            == host_origin(host, port, HTTPS_PORT) && (is_plain_host(text::lowered(host))
            ==> target_origin(read) is Some) by {
            lemma_address(true, host, port, tail);
        }
        assert forall|host: Seq<char>, port: u16, tail: Seq<char>|
            input@ == #[trigger] (origin_of(host, port) + tail) && is_host(host) && only_path(tail)
                && authority_fits(host, Some(port)) && (is_plain_host(host) || is_accepted(host))
                implies target_origin(read) == Some(origin_of(host, port)) by {
            lemma_origin_is_address(host, port, tail);
            lemma_host_is_lowered(host);
            lemma_address(true, host, Some(port), tail);
            law_paths_lead_to_their_origin(host, port, tail, read);
        }
    }
    match parsed {
        Ok(url) => request_origin_of(Some(url)),
        Err(message) => Err(message),
    }
}

// ---------------------------------------------------------------------------
// Laws
// ---------------------------------------------------------------------------

proof fn lemma_decimal_injective(m: nat, n: nat)
    requires
        text::decimal(m) == text::decimal(n),
    ensures
        m == n,
    decreases m,
{
    let s = text::decimal(m);
    if m >= 10 {
        lemma_decimal_digits(m / 10);
        assert(s.drop_last() =~= text::decimal(m / 10));
        assert(s.last() == text::digit(m % 10));
    }
    if n >= 10 {
        lemma_decimal_digits(n / 10);
        assert(s.drop_last() =~= text::decimal(n / 10));
        assert(s.last() == text::digit(n % 10));
    }
    if m < 10 {
        assert(s[0] == text::digit(m));
        if n < 10 {
            assert(s[0] == text::digit(n));
        }
    } else {
        lemma_decimal_injective(m / 10, n / 10);
    }
}

proof fn lemma_bracketed_injective(g: Seq<char>, h: Seq<char>)
    requires
        bracketed(g) == bracketed(h),
    ensures
        g == h,
{
    let b = bracketed(g);
    if g.contains(':') {
        let i = choose|i: int| 0 <= i < g.len() && g[i] == ':';
        assert(b[i + 1] == ':');
        assert(b.contains(':'));
        assert(b.subrange(1, b.len() - 1) =~= g);
    }
    if h.contains(':') {
        let i = choose|i: int| 0 <= i < h.len() && h[i] == ':';
        assert(b[i + 1] == ':');
        assert(b.contains(':'));
        assert(b.subrange(1, b.len() - 1) =~= h);
    }
}

/// Two origins are the same text only if they have the same host and the same
/// port.
pub proof fn law_origin_tells_host_and_port(g: Seq<char>, p: u16, h: Seq<char>, q: u16)
    requires
        origin_of(g, p) == origin_of(h, q),
    ensures
        g == h,
        p == q,
{
    let o = origin_of(g, p);
    let m = text::decimal(p as nat);
    let n = text::decimal(q as nat);
    lemma_decimal_digits(p as nat);
    lemma_decimal_digits(q as nat);
    reveal_strlit("https://");
    let i: int = 8 + bracketed(g).len() as int;
    let j: int = 8 + bracketed(h).len() as int;
    assert(o[i] == ':' && o[j] == ':');
    assert(o.skip(i + 1) =~= m);
    assert(origin_of(h, q).skip(j + 1) =~= n);
    if i < j {
        assert(o.skip(i + 1)[j - i - 1] == o[j]);
        assert(text::is_digit(m[j - i - 1]));
    }
    if j < i {
        assert(o.skip(j + 1)[i - j - 1] == o[i]);
        assert(text::is_digit(n[i - j - 1]));
    }
    lemma_decimal_injective(p as nat, q as nat);
    assert(o.subrange(8, i) =~= bracketed(g));
    assert(o.subrange(8, j) =~= bracketed(h));
    lemma_bracketed_injective(g, h);
}

/// A request has the origin of a session only if it goes to the session's own
/// host and port, over `https` and without credentials.
pub proof fn law_same_origin_is_same_host_and_port(
    input: Seq<char>,
    typed: Option<UrlView>,
    requested: Option<UrlView>,
)
    requires
        session_origin(input, typed) is Some,
    ensures
        target_origin(requested) == session_origin(input, typed) <==> {
            &&& requested matches Some(url)
            &&& is_https(url)
            &&& url.query is None
            &&& url.fragment is None
            &&& url.host == typed->0.host
            &&& request_port(url) == session_port(input, typed->0)
        },
{
    if target_origin(requested) == session_origin(input, typed) {
        law_origin_tells_host_and_port(
            requested->0.host->0,
            request_port(requested->0),
            typed->0.host->0,
            session_port(input, typed->0),
        );
    }
}

/// The path of a request plays no part in where it goes.
pub proof fn law_path_plays_no_part(url: UrlView, path: Seq<char>)
    ensures
        target_origin(Some(UrlView { path, ..url })) == target_origin(Some(url)),
{
}

/// A URL with credentials, a query or a fragment is refused, for a session and
/// for a request.
pub proof fn law_credentials_and_queries_are_refused(input: Seq<char>, url: UrlView)
    requires
        url.username.len() > 0 || url.password is Some || url.query is Some || url.fragment is Some,
    ensures
        session_origin(input, Some(url)) is None,
        target_origin(Some(url)) is None,
{
}

/// The text of an origin is read as it stands.
proof fn lemma_origin_text(host: Seq<char>, port: u16)
    requires
        is_host(host),
    ensures
        url_text(origin_of(host, port)) == origin_of(host, port),
{
    lemma_origin_is_address(host, port, Seq::empty());
    lemma_host_is_lowered(host);
    lemma_address(true, host, Some(port), Seq::empty());
    assert(origin_of(host, port) + Seq::<char>::empty() =~= origin_of(host, port));
}

/// The way an address is written plays no part: with or without `https://` in
/// front and a slash behind, an IPv4 address or a DNS name gives the origin with
/// that host and with the port behind it, or else the televisions' own, if the
/// host is accepted, as each is in which no label is encoded.
pub proof fn law_scheme_and_slash_play_no_part(
    scheme: bool,
    host: Seq<char>,
    port: Option<u16>,
    slash: bool,
    parsed: Option<UrlView>,
)
    requires
        is_host(text::lowered(host)),
        authority_fits(host, port),
        reads_hosts(address(true, host, port, slash_text(slash)), parsed),
    ensures
        url_text(address(scheme, host, port, slash_text(slash))) == address(
            true,
            host,
            port,
            slash_text(slash),
        ),
        session_origin(address(scheme, host, port, slash_text(slash)), parsed) == host_origin(
            host,
            port,
            SMARTCAST_PORT,
        ),
        is_plain_host(text::lowered(host)) ==> is_accepted(text::lowered(host)),
{
    lemma_address(scheme, host, port, slash_text(slash));
}

/// The origin of a session, typed as an address, gives itself.
pub proof fn law_origins_are_their_own_addresses(
    host: Seq<char>,
    port: u16,
    parsed: Option<UrlView>,
)
    requires
        is_host(host),
        is_plain_host(host) || is_accepted(host),
        authority_fits(host, Some(port)),
        reads_hosts(origin_of(host, port), parsed),
    ensures
        session_origin(origin_of(host, port), parsed) == Some(origin_of(host, port)),
{
    lemma_origin_is_address(host, port, Seq::empty());
    lemma_host_is_lowered(host);
    assert(origin_of(host, port) + Seq::<char>::empty() =~= origin_of(host, port));
    assert(slash_text(false) == Seq::<char>::empty());
    law_scheme_and_slash_play_no_part(true, host, Some(port), false, parsed);
}

/// A request for a path behind an origin goes to that origin.
pub proof fn law_paths_lead_to_their_origin(
    host: Seq<char>,
    port: u16,
    tail: Seq<char>,
    parsed: Option<UrlView>,
)
    requires
        is_host(host),
        is_plain_host(host) || is_accepted(host),
        only_path(tail),
        authority_fits(host, Some(port)),
        reads_hosts(origin_of(host, port) + tail, parsed),
    ensures
        target_origin(parsed) == Some(origin_of(host, port)),
{
    lemma_origin_is_address(host, port, tail);
    lemma_host_is_lowered(host);
}

/// What an IPv4 address or a DNS name gives for a session, with or without a
/// scheme, a port and a slash, gives itself for a session, and every path behind
/// it goes there.
pub proof fn law_session_origins_are_kept(
    scheme: bool,
    host: Seq<char>,
    port: Option<u16>,
    slash: bool,
    tail: Seq<char>,
    parsed: Option<UrlView>,
    again: Option<UrlView>,
    requested: Option<UrlView>,
)
    requires
        is_host(text::lowered(host)),
        authority_fits(host, Some(port_or(port, SMARTCAST_PORT))),
        only_path(tail),
        reads_hosts(address(true, host, port, slash_text(slash)), parsed),
        session_origin(address(scheme, host, port, slash_text(slash)), parsed) is Some,
        reads_hosts(
            session_origin(address(scheme, host, port, slash_text(slash)), parsed)->0,
            again,
        ),
        reads_hosts(
            session_origin(address(scheme, host, port, slash_text(slash)), parsed)->0 + tail,
            requested,
        ),
    ensures
        ({
            let origin = session_origin(address(scheme, host, port, slash_text(slash)), parsed);
            &&& session_origin(origin->0, again) == origin
            &&& target_origin(requested) == origin
        }),
{
    let low = text::lowered(host);
    law_scheme_and_slash_play_no_part(scheme, host, port, slash, parsed);
    lemma_host_is_lowered(low);
    law_origins_are_their_own_addresses(low, port_or(port, SMARTCAST_PORT), again);
    law_paths_lead_to_their_origin(low, port_or(port, SMARTCAST_PORT), tail, requested);
}

/// Only an address that names a port moves a session away from the televisions'
/// own port.
pub proof fn law_port_defaults(input: Seq<char>, parsed: Option<UrlView>)
    requires
        !names_port(authority(input)),
    ensures
        session_origin(input, parsed) matches Some(origin) ==> origin == origin_of(
            parsed->0.host->0,
            SMARTCAST_PORT,
        ),
{
}

/// Whether "://" stands in a text at this index.
pub open spec fn scheme_mark_at(s: Seq<char>, i: int) -> bool {
    0 <= i && i + 3 <= s.len() && s[i] == ':' && s[i + 1] == '/' && s[i + 2] == '/'
}

proof fn lemma_scheme_mark(s: Seq<char>)
    ensures
        forall|i: int| #[trigger] scheme_mark_at(s, i) <==> text::occurs_at(s, "://"@, i),
{
    reveal_strlit("://");
    assert forall|i: int| #[trigger] scheme_mark_at(s, i) <==> text::occurs_at(s, "://"@, i) by {
        if scheme_mark_at(s, i) {
            assert(s.subrange(i, i + 3) =~= "://"@);
        }
        if text::occurs_at(s, "://"@, i) {
            assert(s.subrange(i, i + 3)[0] == s[i]);
            assert(s.subrange(i, i + 3)[1] == s[i + 1]);
            assert(s.subrange(i, i + 3)[2] == s[i + 2]);
        }
    }
}

/// What is read as a URL: a text that holds "://" as it stands, and any other
/// with "https://" in front.
pub proof fn law_addresses_without_a_scheme_are_https(input: Seq<char>)
    ensures
        (exists|i: int| scheme_mark_at(input, i)) ==> url_text(input) == input,
        (forall|i: int| !scheme_mark_at(input, i)) ==> url_text(input) == seq![
            'h',
            't',
            't',
            'p',
            's',
            ':',
            '/',
            '/',
        ] + input,
{
    reveal_strlit("https://");
    assert("https://"@ =~= seq!['h', 't', 't', 'p', 's', ':', '/', '/']);
    lemma_scheme_mark(input);
    text::lemma_find(input, "://"@);
    if let Some(i) = text::find(input, "://"@) {
        assert(scheme_mark_at(input, i));
    }
}

/// Every text of up to 2147483647 characters is read, and so is a longer one of
/// `https` with an authority up to that length, whatever follows it.
pub proof fn law_long_paths_are_no_hindrance(input: Seq<char>, front: Seq<char>, tail: Seq<char>)
    requires
        0 < front.len(),
        front.len() <= 2147483647,
        forall|i: int|
            0 <= i < front.len() ==> (#[trigger] front[i]) as int > 32 && front[i] != '/' && front[i]
                != '\\' && front[i] != '?' && front[i] != '#',
        tail.len() > 0 ==> tail[0] == '/',
    ensures
        input.len() <= 2147483647 ==> read_url(input) == parsed_url(input),
        read_url(seq!['h', 't', 't', 'p', 's', ':', '/', '/'] + (front + tail)) == parsed_url(
            seq!['h', 't', 't', 'p', 's', ':', '/', '/'] + (front + tail),
        ),
{
    reveal_strlit("https://");
    assert("https://"@ =~= seq!['h', 't', 't', 'p', 's', ':', '/', '/']);
    assert forall|k: int| 0 <= k < front.len() implies !measure::is_control(#[trigger] front[k])
        && !measure::ends_authority(front[k]) by {}
    measure::lemma_fits(front, tail, URL_LIMIT, SLASH_LIMIT);
}

/// Which URLs name a television: those of `https` with a host and without a user
/// and a password. A session's says no path, query or fragment, and a request's
/// no query or fragment.
pub proof fn law_which_urls_name_a_television(input: Seq<char>, url: UrlView)
    ensures
        https_url(Some(url)) == if url.scheme == seq!['h', 't', 't', 'p', 's']
            && url.username.len() == 0 && url.password is None && url.host is Some {
            Some(url)
        } else {
            None
        },
        https_url(None) is None,
        target_origin(Some(url)) is Some <==> https_url(Some(url)) is Some && url.query is None
            && url.fragment is None,
        session_origin(input, Some(url)) is Some <==> https_url(Some(url)) is Some && url.query is None
            && url.fragment is None && url.path == seq!['/'],
        target_origin(None) is None,
        session_origin(input, None) is None,
{
    reveal_strlit("https");
    assert("https"@ =~= seq!['h', 't', 't', 'p', 's']);
}

/// The text of an origin: "https://", the host, in brackets if it holds a colon,
/// a colon, and the port in decimal.
pub open spec fn origin_text(host: Seq<char>, port: u16) -> Seq<char> {
    seq!['h', 't', 't', 'p', 's', ':', '/', '/'] + (if host.contains(':') {
        seq!['['] + host + seq![']']
    } else {
        host
    }) + seq![':'] + text::decimal(port as nat)
}

/// A request goes to the host of its URL, at the port that this has or else at
/// 443. A session has the host of its address, at the port that was typed, and
/// at 7345 where none was typed or none was read.
pub proof fn law_origins_have_the_host_and_port_of_their_url(input: Seq<char>, url: UrlView)
    ensures
        target_origin(Some(url)) matches Some(origin) ==> origin == origin_text(
            url.host->0,
            if url.port is Some {
                url.port->0
            } else {
                443
            },
        ),
        session_origin(input, Some(url)) matches Some(origin) ==> origin == origin_text(
            url.host->0,
            if names_port(authority(input)) && url.port is Some {
                url.port->0
            } else {
                7345
            },
        ),
        forall|host: Seq<char>, port: u16| #[trigger] origin_of(host, port) == origin_text(
            host,
            port,
        ),
{
    reveal_strlit("https://");
    assert("https://"@ =~= seq!['h', 't', 't', 'p', 's', ':', '/', '/']);
    assert forall|host: Seq<char>, port: u16| #[trigger] origin_of(host, port) == origin_text(
        host,
        port,
    ) by {
        assert(origin_of(host, port) =~= origin_text(host, port));
    }
}

/// The authority of an address is what stands between its first "://", or else
/// its start, and the next slash, or else its end.
pub proof fn law_authorities_end_at_the_slash(lead: Seq<char>, auth: Seq<char>, rest: Seq<char>)
    requires
        !auth.contains('/'),
        rest.len() > 0 ==> rest[0] == '/',
    ensures
        (forall|i: int|
            i < lead.len() ==> !scheme_mark_at(lead + seq![':', '/', '/'] + (auth + rest), i))
            ==> authority(lead + seq![':', '/', '/'] + (auth + rest)) == auth,
        (forall|i: int| !scheme_mark_at(auth + rest, i)) ==> authority(auth + rest) == auth,
{
    let all = lead + seq![':', '/', '/'] + (auth + rest);
    let n = lead.len() as int;
    if rest.len() > 0 {
        assert(auth + rest =~= auth + seq!['/'] + rest.drop_first());
        text::law_before_stops_at_the_first_place(auth, '/', rest.drop_first());
    } else {
        assert(auth + rest =~= auth);
        text::law_before_stops_at_the_first_place(auth, '/', rest);
    }
    lemma_scheme_mark(all);
    lemma_scheme_mark(auth + rest);
    if forall|i: int| i < lead.len() ==> !scheme_mark_at(all, i) {
        assert(scheme_mark_at(all, n));
        assert forall|j: int| 0 <= j < n implies !text::occurs_at(all, "://"@, j) by {
            assert(!scheme_mark_at(all, j));
        }
        text::lemma_find_is(all, "://"@, n);
        assert(all.skip(n + 3) =~= auth + rest);
    }
    if forall|i: int| !scheme_mark_at(auth + rest, i) {
        assert forall|j: int| !text::occurs_at(auth + rest, "://"@, j) by {
            assert(!scheme_mark_at(auth + rest, j));
        }
        text::lemma_find_none(auth + rest, "://"@);
    }
}

/// A host that is not in brackets has a port if digits and nothing else stand
/// behind the last colon.
pub proof fn law_ports_are_digits_behind_the_last_colon(host: Seq<char>, port: Seq<char>)
    requires
        host.len() > 0 ==> host[0] != '[',
        !port.contains(':'),
    ensures
        names_port(host + seq![':'] + port) <==> port.len() > 0 && forall|i: int|
            0 <= i < port.len() ==> 48 <= (#[trigger] port[i]) as int && port[i] as int <= 57,
        (port.len() > 0 ==> port[0] != '[') ==> !names_port(port),
{
    let auth = host + seq![':'] + port;
    let n = host.len() as int;
    text::law_search_finds_the_last_place(host, ':', port);
    if host.len() > 0 {
        assert(auth[0] == host[0]);
    } else {
        assert(auth[0] == ':');
    }
    assert(forall|j: int| n < j < auth.len() ==> auth[j] == port[j - n - 1]);
    if forall|i: int|
        0 <= i < port.len() ==> 48 <= (#[trigger] port[i]) as int && port[i] as int <= 57 {
        assert forall|j: int| n < j < auth.len() implies text::is_digit(#[trigger] auth[j]) by {
            assert(48 <= port[j - n - 1] as int);
        }
    }
    if names_port(auth) {
        assert forall|i: int| 0 <= i < port.len() implies 48 <= (#[trigger] port[i]) as int
            && port[i] as int <= 57 by {
            assert(text::is_digit(auth[i + n + 1]));
        }
    }
}

/// A host in brackets has a port if a colon stands behind the bracket that
/// closes it.
pub proof fn law_ports_stand_behind_the_bracket(inner: Seq<char>, rest: Seq<char>)
    requires
        !inner.contains(']'),
    ensures
        names_port(seq!['['] + inner + seq![']'] + rest) <==> rest.len() > 0 && rest[0] == ':',
        !names_port(seq!['['] + inner),
{
    let head = seq!['['] + inner;
    let auth = head + seq![']'] + rest;
    let n = head.len() as int;
    assert(auth =~= seq!['['] + inner + seq![']'] + rest);
    assert forall|j: int| 0 <= j < n implies head[j] != ']' by {
        if j > 0 {
            assert(head[j] == inner[j - 1]);
            assert(inner.contains(inner[j - 1]));
        }
    }
    assert(auth.subrange(n, n + 1) =~= seq![']']);
    assert forall|j: int| 0 <= j < n implies !text::occurs_at(auth, seq![']'], j) by {
        assert(auth.subrange(j, j + 1)[0] == head[j]);
    }
    text::lemma_find_is(auth, seq![']'], n);
    assert forall|j: int| !text::occurs_at(head, seq![']'], j) by {
        if text::occurs_at(head, seq![']'], j) {
            assert(head.subrange(j, j + 1)[0] == head[j]);
        }
    }
    text::lemma_find_none(head, seq![']']);
    assert(auth[0] == '[' && head[0] == '[');
    if rest.len() > 0 {
        assert(auth[n + 1] == rest[0]);
    }
}

/// The mathematical value of a URL's parts holds all of them.
pub proof fn law_nothing_of_a_url_is_left_out(parts: UrlParts)
    ensures
        parts@.scheme == parts.scheme@,
        parts@.username == parts.username@,
        parts@.password is Some <==> parts.password is Some,
        parts.password matches Some(password) ==> parts@.password == Some(password@),
        parts@.host is Some <==> parts.host is Some,
        parts.host matches Some(host) ==> parts@.host == Some(host@),
        parts@.port == parts.port,
        parts@.path == parts.path@,
        parts@.query is Some <==> parts.query is Some,
        parts.query matches Some(query) ==> parts@.query == Some(query@),
        parts@.fragment is Some <==> parts.fragment is Some,
        parts.fragment matches Some(fragment) ==> parts@.fragment == Some(fragment@),
        parts_view(Some(parts)) == Some(parts@),
        parts_view(None) is None,
{
}

/// A result is the origin that there is, and the one error exactly if there is
/// none.
pub proof fn law_results_are_the_origin_or_the_error(
    text: String,
    message: String,
    origin: Seq<char>,
)
    ensures
        origin_result(Ok(text), Some(origin)) <==> text@ == origin,
        !origin_result(Ok(text), None),
        origin_result(Err(message), None) <==> message@ == "Invalid SmartCast TV origin"@,
        !origin_result(Err(message), Some(origin)),
{
}

} // verus!
