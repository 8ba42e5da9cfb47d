//! Replies to a local-network search: header lookup and television names.

use vstd::prelude::*;

use crate::text;
use crate::text::{
    chars_of, decimal_text, find_in, lower_chars, same_chars, trim_range, utf8_text,
};

verus! {

// ---------------------------------------------------------------------------
// Headers
// ---------------------------------------------------------------------------

/// What ends a line of a reply.
pub open spec fn line_end() -> Seq<char> {
    seq!['\r', '\n']
}

/// Whether two texts are the same but for the case of ASCII letters.
pub open spec fn same_ignoring_case(a: Seq<char>, b: Seq<char>) -> bool {
    text::lowered(a) == text::lowered(b)
}

/// The value that one line gives to the header `name`: what follows the first
/// colon, if what precedes it is `name` in any letter case.
pub open spec fn line_value(line: Seq<char>, name: Seq<char>) -> Option<Seq<char>> {
    match text::find(line, seq![':']) {
        Some(i) => if same_ignoring_case(text::trimmed(line.take(i)), name) {
            Some(text::trimmed(line.skip(i + 1)))
        } else {
            None
        },
        None => None,
    }
}

/// The value from the first of `lines` that gives one to the header `name`.
pub open spec fn first_value(lines: Seq<Seq<char>>, name: Seq<char>) -> Option<Seq<char>>
    decreases lines.len(),
{
    if lines.len() == 0 {
        None
    } else {
        match line_value(lines[0], name) {
            Some(value) => Some(value),
            None => first_value(lines.drop_first(), name),
        }
    }
}

/// The value of the header `name` in a reply, whose first line is a status
/// line and no header.
pub open spec fn header(reply: Seq<char>, name: Seq<char>) -> Option<Seq<char>> {
    first_value(text::split(reply, line_end()).drop_first(), name)
}

/// Looks at the line from index `from` up to `to`: where the value that it
/// gives to the header `name` starts and ends.
fn value_range(cs: &Vec<char>, from: usize, to: usize, name: &Vec<char>) -> (r: Option<
    (usize, usize),
>)
    requires
        from <= to <= cs.len(),
    ensures
        match r {
            Some((a, b)) => {
                &&& from <= a <= b <= to
                &&& line_value(cs@.subrange(from as int, to as int), name@) == Some(
                    cs@.subrange(a as int, b as int),
                )
            },
            None => line_value(cs@.subrange(from as int, to as int), name@) is None,
        },
{
    let ghost line = cs@.subrange(from as int, to as int);
    proof {
        reveal_strlit(":");
        assert(":"@ =~= seq![':']);
    }
    match find_in(cs, from, to, ":") {
        None => None,
        Some(colon) => {
            assert(line.take(colon - from) =~= cs@.subrange(from as int, colon as int));
            assert(line.skip(colon - from + 1) =~= cs@.subrange(colon + 1, to as int));
            let (a, b) = trim_range(cs, from, colon);
            let mut key: Vec<char> = Vec::new();
            let mut i: usize = a;
            while i < b
                invariant
                    a <= i <= b <= cs.len(),
                    key@ =~= cs@.subrange(a as int, i as int),
                decreases b - i,
            {
                key.push(cs[i]);
                i = i + 1;
            }
            if same_chars(&lower_chars(&key), &lower_chars(name)) {
                Some(trim_range(cs, colon + 1, to))
            } else {
                None
            }
        },
    }
}

/// The value of the header `name` in a reply. Names match in any letter case,
/// and a value may itself hold colons.
pub fn header_value<'a>(reply: &'a str, name: &str) -> (r: Option<&'a str>)
    ensures
        match r {
            Some(value) => header(reply@, name@) == Some(value@),
            None => header(reply@, name@) is None,
        },
{
    let cs = chars_of(reply);
    let wanted = chars_of(name);
    let n = cs.len();
    proof {
        reveal_strlit("\r\n");
        assert("\r\n"@ =~= line_end());
        assert(cs@.subrange(0, n as int) =~= reply@);
    }
    let mut start: usize = match find_in(&cs, 0, n, "\r\n") {
        None => {
            assert(text::split(reply@, line_end()).drop_first() =~= Seq::empty());
            return None;
        },
        Some(end) => {
            proof {
                let rest = cs@.subrange(end + 2, n as int);
                assert(reply@.skip(end + 2) =~= rest);
                assert(text::split(reply@, line_end()).drop_first() =~= text::split(
                    rest,
                    line_end(),
                ));
            }
            end + 2
        },
    };
    loop
        invariant
            start <= n,
            n == cs.len(),
            cs@ == reply@,
            wanted@ == name@,
            "\r\n"@ == line_end(),
            header(reply@, name@) == first_value(
                text::split(cs@.subrange(start as int, n as int), line_end()),
                name@,
            ),
        decreases n - start,
    {
        let ghost rest = cs@.subrange(start as int, n as int);
        let found = find_in(&cs, start, n, "\r\n");
        let end = match found {
            Some(end) => end,
            None => n,
        };
        let ghost lines = text::split(rest, line_end());
        proof {
            if found is Some {
                assert(rest.take(end - start) =~= cs@.subrange(start as int, end as int));
                assert(rest.skip(end - start + 2) =~= cs@.subrange(end + 2, n as int));
                assert(lines.drop_first() =~= text::split(
                    cs@.subrange(end + 2, n as int),
                    line_end(),
                ));
            } else {
                assert(lines.drop_first() =~= Seq::empty());
            }
            assert(lines[0] == cs@.subrange(start as int, end as int));
        }
        if let Some((a, b)) = value_range(&cs, start, end, &wanted) {
            return Some(reply.substring_char(a, b));
        }
        if found.is_none() {
            assert(first_value(lines.drop_first(), name@) is None);
            return None;
        }
        start = end + 2;
    }
}

// ---------------------------------------------------------------------------
// Names
// ---------------------------------------------------------------------------

/// The branded part of a `SERVER` value: from where it first says "vizio", in
/// any letter case, up to the slash in front of the firmware version.
pub open spec fn segment(server: Seq<char>) -> Option<Seq<char>> {
    match text::find(text::lowered(server), "vizio"@) {
        Some(i) => Some(text::trimmed(text::before(server.skip(i), '/'))),
        None => None,
    }
}

/// The branded part of a `SERVER` value: "VIZIO SmartCast/19.0.4" becomes
/// "VIZIO SmartCast".
pub fn vizio_segment(server: &str) -> (r: Option<&str>)
    ensures
        match r {
            Some(part) => segment(server@) == Some(part@),
            None => segment(server@) is None,
        },
{
    let cs = chars_of(server);
    let n = cs.len();
    let low = lower_chars(&cs);
    proof {
        assert(low@.subrange(0, n as int) =~= low@);
    }
    match find_in(&low, 0, n, "vizio") {
        None => None,
        Some(start) => {
            let ghost rest = server@.skip(start as int);
            proof {
                reveal_strlit("/");
                assert("/"@ =~= seq!['/']);
                assert(cs@.subrange(start as int, n as int) =~= rest);
            }
            let end = match find_in(&cs, start, n, "/") {
                Some(end) => end,
                None => n,
            };
            assert(cs@.subrange(start as int, end as int) =~= text::before(rest, '/'));
            let (a, b) = trim_range(&cs, start, end);
            Some(server.substring_char(a, b))
        },
    }
}

// ---------------------------------------------------------------------------
// Replies
// ---------------------------------------------------------------------------

/// A television as a search presents it: a name to show and the host to
/// connect to.
#[verifier::ext_equal]
pub struct Tv {
    pub name: Seq<char>,
    pub host: Seq<char>,
}

/// A television found on the local network.
pub struct DiscoveredTv {
    pub name: String,
    pub host: String,
}

impl View for DiscoveredTv {
    type V = Tv;

    open spec fn view(&self) -> Tv {
        Tv { name: self.name@, host: self.host@ }
    }
}

/// The address that a reply came from. Only IPv4 hosts are searched.
#[derive(Clone, Copy)]
pub enum Source {
    V4(u8, u8, u8, u8),
    V6,
}

/// An IPv4 address in dotted decimal.
pub open spec fn dotted(a: u8, b: u8, c: u8, d: u8) -> Seq<char> {
    text::decimal(a as nat) + seq!['.'] + text::decimal(b as nat) + seq!['.'] + text::decimal(
        c as nat,
    ) + seq!['.'] + text::decimal(d as nat)
}

/// Whether a header is there and says "vizio" in any letter case.
pub open spec fn says_vizio(value: Option<Seq<char>>) -> bool {
    value matches Some(v) && text::find(text::lowered(v), "vizio"@) is Some
}

/// The name that a `SERVER` header gives, or the one for a television whose
/// server does not say what it is.
pub open spec fn tv_name(server: Option<Seq<char>>) -> Seq<char> {
    match server {
        Some(s) => match segment(s) {
            Some(part) if part.len() > 0 => part,
            _ => "Vizio TV"@,
        },
        None => "Vizio TV"@,
    }
}

/// Whether a message is a reply: announcements start with a request line.
pub open spec fn is_reply(message: Seq<char>) -> bool {
    text::occurs_at(message, "HTTP/"@, 0)
}

/// The television that a message speaks for, if it is a reply in which one of
/// three headers says "vizio".
pub open spec fn message_tv(message: Seq<char>, host: Seq<char>) -> Option<Tv> {
    let server = header(message, "SERVER"@);
    if is_reply(message) && (says_vizio(server) || says_vizio(header(message, "USN"@))
        || says_vizio(header(message, "LOCATION"@))) {
        Some(Tv { name: tv_name(server) + " ("@ + host + ")"@, host })
    } else {
        None
    }
}

/// The television that a datagram speaks for.
pub open spec fn reply_tv(reply: Seq<u8>, source: Source) -> Option<Tv> {
    match source {
        Source::V4(a, b, c, d) => if vstd::utf8::valid_utf8(reply) {
            message_tv(vstd::utf8::decode_utf8(reply), dotted(a, b, c, d))
        } else {
            None
        },
        Source::V6 => None,
    }
}

/// An IPv4 address in dotted decimal.
fn dotted_text(a: u8, b: u8, c: u8, d: u8) -> (r: String)
    ensures
        r@ == dotted(a, b, c, d),
{
    proof {
        reveal_strlit(".");
        assert("."@ =~= seq!['.']);
    }
    let mut r = decimal_text(a as u16);
    r.append(".");
    r.append(decimal_text(b as u16).as_str());
    r.append(".");
    r.append(decimal_text(c as u16).as_str());
    r.append(".");
    r.append(decimal_text(d as u16).as_str());
    r
}

/// Whether a header is there and says "vizio" in any letter case.
fn mentions_vizio(value: Option<&str>) -> (r: bool)
    ensures
        r == says_vizio(
            match value {
                Some(v) => Some(v@),
                None => None,
            },
        ),
{
    match value {
        Some(v) => {
            let low = lower_chars(&chars_of(v));
            assert(low@.subrange(0, low@.len() as int) =~= low@);
            find_in(&low, 0, low.len(), "vizio").is_some()
        },
        None => false,
    }
}

/// Whether a message is a reply.
fn starts_as_reply(message: &str) -> (r: bool)
    ensures
        r == is_reply(message@),
{
    let cs = chars_of(message);
    proof {
        assert(cs@.subrange(0, cs@.len() as int) =~= message@);
        text::lemma_find(message@, "HTTP/"@);
    }
    match find_in(&cs, 0, cs.len(), "HTTP/") {
        Some(i) => i == 0,
        None => false,
    }
}

/// The television that a message from `host` speaks for.
fn message_entry(message: &str, host: String) -> (r: Option<DiscoveredTv>)
    ensures
        match r {
            Some(tv) => message_tv(message@, host@) == Some(tv@),
            None => message_tv(message@, host@) is None,
        },
{
    if !starts_as_reply(message) {
        return None;
    }
    let server = header_value(message, "SERVER");
    if !mentions_vizio(server) && !mentions_vizio(header_value(message, "USN")) && !mentions_vizio(
        header_value(message, "LOCATION"),
    ) {
        return None;
    }
    let mut name: String = "Vizio TV".to_owned();
    if let Some(value) = server {
        if let Some(part) = vizio_segment(value) {
            if !part.is_empty() {
                name = part.to_owned();
            }
        }
    }
    name.append(" (");
    name.append(host.as_str());
    name.append(")");
    Some(DiscoveredTv { name, host })
}

/// Turns one reply into an entry of the list: the address it came from is the
/// host, and its headers carry the name. Replies that never say "vizio" give
/// none.
pub fn ssdp_response_tv(reply: &[u8], source: Source) -> (r: Option<DiscoveredTv>)
    ensures
        match r {
            Some(tv) => reply_tv(reply@, source) == Some(tv@),
            None => reply_tv(reply@, source) is None,
        },
{
    match source {
        Source::V4(a, b, c, d) => match utf8_text(reply) {
            Some(message) => message_entry(message, dotted_text(a, b, c, d)),
            None => None,
        },
        Source::V6 => None,
    }
}

// ---------------------------------------------------------------------------
// Laws
// ---------------------------------------------------------------------------

/// A header is found by its name in any letter case.
pub proof fn law_header_names_ignore_case(reply: Seq<char>, a: Seq<char>, b: Seq<char>)
    requires
        same_ignoring_case(a, b),
    ensures
        header(reply, a) == header(reply, b),
{
    lemma_first_value_ignores_case(text::split(reply, line_end()).drop_first(), a, b);
}

proof fn lemma_first_value_ignores_case(lines: Seq<Seq<char>>, a: Seq<char>, b: Seq<char>)
    requires
        same_ignoring_case(a, b),
    ensures
        first_value(lines, a) == first_value(lines, b),
    decreases lines.len(),
{
    if lines.len() > 0 {
        lemma_first_value_ignores_case(lines.drop_first(), a, b);
    }
}

/// The status line gives no header, whatever it holds.
pub proof fn law_status_line_is_no_header(
    first: Seq<char>,
    second: Seq<char>,
    rest: Seq<char>,
    name: Seq<char>,
)
    requires
        text::find(first, line_end()) is None,
        text::find(second, line_end()) is None,
    ensures
        header(first + line_end() + rest, name) == header(second + line_end() + rest, name),
{
    lemma_split_after_first_line(first, rest);
    lemma_split_after_first_line(second, rest);
}

proof fn lemma_split_after_first_line(first: Seq<char>, rest: Seq<char>)
    requires
        text::find(first, line_end()) is None,
    ensures
        text::split(first + line_end() + rest, line_end()).drop_first() == text::split(
            rest,
            line_end(),
        ),
{
    let all = first + line_end() + rest;
    let n = first.len() as int;
    text::lemma_find(first, line_end());
    assert(all.subrange(n, n + 2) =~= line_end());
    assert forall|j: int| 0 <= j < n implies !text::occurs_at(all, line_end(), j) by {
        if text::occurs_at(all, line_end(), j) {
            assert(all.subrange(j, j + 2)[0] == '\r' && all.subrange(j, j + 2)[1] == '\n');
            assert(j + 1 < n);
            assert(first.subrange(j, j + 2) =~= line_end());
            assert(text::occurs_at(first, line_end(), j));
        }
    }
    text::lemma_find_is(all, line_end(), n);
    assert(all.skip(n + 2) =~= rest);
    assert(text::split(all, line_end()).drop_first() =~= text::split(rest, line_end()));
}

/// The value of a header line is all that follows its first colon, further
/// colons included.
pub proof fn law_value_may_hold_colons(key: Seq<char>, value: Seq<char>, name: Seq<char>)
    requires
        text::find(key, seq![':']) is None,
        same_ignoring_case(text::trimmed(key), name),
    ensures
        line_value(key + seq![':'] + value, name) == Some(text::trimmed(value)),
{
    let line = key + seq![':'] + value;
    let n = key.len() as int;
    text::lemma_find(key, seq![':']);
    assert(line.subrange(n, n + 1) =~= seq![':']);
    assert forall|j: int| 0 <= j < n implies !text::occurs_at(line, seq![':'], j) by {
        assert(line.subrange(j, j + 1)[0] == key[j]);
        if key[j] == ':' {
            assert(key.subrange(j, j + 1) =~= seq![':']);
            assert(text::occurs_at(key, seq![':'], j));
        }
    }
    text::lemma_find_is(line, seq![':'], n);
    assert(line.take(n) =~= key);
    assert(line.skip(n + 1) =~= value);
}

proof fn lemma_header_is_part(reply: Seq<char>, name: Seq<char>)
    ensures
        header(reply, name) matches Some(value) ==> text::part_of(value, reply),
{
    let lines = text::split(reply, line_end());
    lemma_first_value_is_part(lines.drop_first(), name);
    if let Some(value) = header(reply, name) {
        let k = choose|k: int|
            0 <= k < lines.drop_first().len() && text::part_of(
                value,
                #[trigger] lines.drop_first()[k],
            );
        assert(lines.drop_first()[k] == lines[k + 1]);
        text::lemma_pieces_are_parts(reply, line_end(), k + 1);
        text::lemma_part_of_part(value, lines[k + 1], reply);
    }
}

proof fn lemma_first_value_is_part(lines: Seq<Seq<char>>, name: Seq<char>)
    ensures
        first_value(lines, name) matches Some(value) ==> exists|k: int|
            0 <= k < lines.len() && text::part_of(value, #[trigger] lines[k]),
    decreases lines.len(),
{
    if lines.len() > 0 {
        let line = lines[0];
        if let Some(value) = line_value(line, name) {
            text::lemma_find(line, seq![':']);
            let i = text::find(line, seq![':'])->0;
            let tail = line.skip(i + 1);
            text::lemma_trimmed_is_part(tail);
            assert(tail =~= line.subrange(i + 1, line.len() as int));
            text::lemma_subrange_is_part(line, i + 1, line.len() as int);
            text::lemma_part_of_part(value, tail, line);
            assert(text::part_of(value, lines[0]));
        } else {
            lemma_first_value_is_part(lines.drop_first(), name);
            if let Some(value) = first_value(lines.drop_first(), name) {
                let k = choose|k: int|
                    0 <= k < lines.drop_first().len() && text::part_of(
                        value,
                        #[trigger] lines.drop_first()[k],
                    );
                assert(lines[k + 1] == lines.drop_first()[k]);
            }
        }
    }
}

/// A message that nowhere says "vizio", in whatever letter case, is dropped.
pub proof fn law_unbranded_messages_are_dropped(message: Seq<char>, host: Seq<char>)
    requires
        text::find(text::lowered(message), "vizio"@) is None,
    ensures
        message_tv(message, host) is None,
{
    lemma_quiet_header(message, "SERVER"@);
    lemma_quiet_header(message, "USN"@);
    lemma_quiet_header(message, "LOCATION"@);
}

proof fn lemma_quiet_header(message: Seq<char>, name: Seq<char>)
    requires
        text::find(text::lowered(message), "vizio"@) is None,
    ensures
        !says_vizio(header(message, name)),
{
    if says_vizio(header(message, name)) {
        let value = header(message, name)->0;
        let low = text::lowered(value);
        lemma_header_is_part(message, name);
        text::lemma_lowered_part(value, message);
        text::lemma_find(low, "vizio"@);
        assert(text::occurs_at(low, "vizio"@, text::find(low, "vizio"@)->0));
        text::lemma_part_of_part("vizio"@, low, text::lowered(message));
        let i = choose|i: int| text::occurs_at(text::lowered(message), "vizio"@, i);
        text::lemma_find(text::lowered(message), "vizio"@);
    }
}

/// Whether a text starts with "vizio" in any letter case.
pub open spec fn starts_branded(s: Seq<char>) -> bool {
    s.len() >= 5 && same_ignoring_case(s.take(5), "vizio"@)
}

/// The branded part of a `SERVER` value is never empty: it starts with "vizio",
/// holds no slash, and has no white space around it.
pub proof fn law_segment_is_branded(server: Seq<char>)
    ensures
        segment(server) matches Some(part) ==> {
            &&& starts_branded(part)
            &&& text::find(part, seq!['/']) is None
            &&& text::trimmed(part) == part
        },
{
    if let Some(part) = segment(server) {
        let low = text::lowered(server);
        let i = text::find(low, "vizio"@)->0;
        reveal_strlit("vizio");
        text::lemma_find(low, "vizio"@);
        let rest = server.skip(i);
        assert forall|k: int| 0 <= k < 5 implies text::ascii_lower(#[trigger] rest[k]) == "vizio"@[k] by {
            assert(low.subrange(i, i + 5)[k] == low[i + k]);
        }
        let head = text::before(rest, '/');
        text::lemma_find(rest, seq!['/']);
        if let Some(j) = text::find(rest, seq!['/']) {
            assert(rest.subrange(j, j + 1)[0] == '/');
            if j < 5 {
                assert(text::ascii_lower(rest[j]) == "vizio"@[j]);
            }
        }
        assert(head.len() >= 5);
        assert forall|k: int| 0 <= k < head.len() implies head[k] != '/' by {
            if head[k] == '/' {
                assert(rest.subrange(k, k + 1) =~= seq!['/']);
                assert(text::occurs_at(rest, seq!['/'], k));
            }
        }
        assert(text::ascii_lower(rest[0]) == "vizio"@[0]);
        assert(!text::is_white_space(head[0]));
        assert(text::trim_start(head) == head);
        text::lemma_trim_end(head);
        assert(text::ascii_lower(rest[4]) == "vizio"@[4]);
        assert(!text::is_white_space(head[4]));
        assert(part.len() >= 5);
        assert forall|k: int| 0 <= k < part.len() implies part[k] == head[k] by {}
        assert(text::lowered(part.take(5)) =~= text::lowered("vizio"@));
        text::lemma_find(part, seq!['/']);
        if let Some(j) = text::find(part, seq!['/']) {
            assert(part.subrange(j, j + 1)[0] == '/');
        }
        assert(text::trim_start(part) == part);
        assert(text::trim_end(part) == part);
    }
}

/// Every name that is listed starts with "vizio" and ends with the host.
pub proof fn law_names_are_branded_and_located(message: Seq<char>, host: Seq<char>)
    ensures
        message_tv(message, host) matches Some(tv) ==> {
            &&& starts_branded(tv.name)
            &&& tv.host == host
            &&& tv.name == tv_name(header(message, "SERVER"@)) + seq![' ', '('] + host + seq![')']
        },
{
    if let Some(tv) = message_tv(message, host) {
        let server = header(message, "SERVER"@);
        let name = tv_name(server);
        reveal_strlit("vizio");
        reveal_strlit("Vizio TV");
        reveal_strlit(" (");
        reveal_strlit(")");
        assert(" ("@ =~= seq![' ', '(']);
        assert(")"@ =~= seq![')']);
        if let Some(s) = server {
            law_segment_is_branded(s);
        }
        if name == "Vizio TV"@ {
            assert(text::lowered(name.take(5)) =~= text::lowered("vizio"@));
        }
        assert(starts_branded(name));
        assert(tv.name.take(5) =~= name.take(5));
    }
}

/// A message of these lines, with a carriage return and a line feed between
/// each and the next.
pub open spec fn message_of(lines: Seq<Seq<char>>) -> Seq<char>
    decreases lines.len(),
{
    if lines.len() == 0 {
        Seq::empty()
    } else if lines.len() == 1 {
        lines[0]
    } else {
        lines[0] + seq!['\r', '\n'] + message_of(lines.drop_first())
    }
}

/// Whether a text holds no carriage return with a line feed behind it.
pub open spec fn is_line(line: Seq<char>) -> bool {
    forall|i: int|
        0 <= i && i + 1 < line.len() ==> !((#[trigger] line[i]) == '\r' && line[i + 1] == '\n')
}

/// Whether a line says the value of a header in these two parts: a key without
/// a colon, which is the name but for white space around it and letter case,
/// then a colon, then whatever follows.
pub open spec fn is_header_line(
    line: Seq<char>,
    name: Seq<char>,
    key: Seq<char>,
    value: Seq<char>,
) -> bool {
    &&& line == key + seq![':'] + value
    &&& !key.contains(':')
    &&& text::lowered(text::trimmed(key)) == text::lowered(name)
}

/// Whether a line says the value of a header.
pub open spec fn names_header(line: Seq<char>, name: Seq<char>) -> bool {
    exists|key: Seq<char>, value: Seq<char>| is_header_line(line, name, key, value)
}

proof fn lemma_message_splits(lines: Seq<Seq<char>>)
    requires
        lines.len() > 0,
        forall|i: int| 0 <= i < lines.len() ==> is_line(#[trigger] lines[i]),
    ensures
        text::split(message_of(lines), line_end()) == lines,
    decreases lines.len(),
{
    let first = lines[0];
    assert(is_line(lines[0]));
    assert forall|j: int| !text::occurs_at(first, line_end(), j) by {
        if text::occurs_at(first, line_end(), j) {
            assert(first.subrange(j, j + 2)[0] == '\r' && first.subrange(j, j + 2)[1] == '\n');
            assert(first[j] == '\r' && first[j + 1] == '\n');
        }
    }
    text::lemma_find_none(first, line_end());
    if lines.len() == 1 {
        assert(text::split(first, line_end()) =~= seq![first]);
        assert(lines =~= seq![first]);
    } else {
        let rest = lines.drop_first();
        assert forall|i: int| 0 <= i < rest.len() implies is_line(#[trigger] rest[i]) by {
            assert(rest[i] == lines[i + 1]);
        }
        lemma_message_splits(rest);
        let all = first + line_end() + message_of(rest);
        assert(message_of(lines) =~= all);
        lemma_split_after_first_line(first, message_of(rest));
        let n = first.len() as int;
        assert(all.subrange(n, n + 2) =~= line_end());
        assert forall|j: int| 0 <= j < n implies !text::occurs_at(all, line_end(), j) by {
            if text::occurs_at(all, line_end(), j) {
                assert(all.subrange(j, j + 2)[0] == '\r' && all.subrange(j, j + 2)[1] == '\n');
                assert(all[j] == first[j]);
                assert(j + 1 < n);
                assert(all[j + 1] == first[j + 1]);
            }
        }
        text::lemma_find_is(all, line_end(), n);
        assert(all.take(n) =~= first);
        assert(text::split(all, line_end())[0] == first);
        assert(text::split(all, line_end()) =~= seq![first] + text::split(all, line_end()).drop_first());
        assert(lines =~= seq![first] + rest);
    }
}

proof fn lemma_line_value(line: Seq<char>, name: Seq<char>, key: Seq<char>, value: Seq<char>)
    requires
        is_header_line(line, name, key, value),
    ensures
        line_value(line, name) == Some(text::trimmed(value)),
{
    assert forall|j: int| !text::occurs_at(key, seq![':'], j) by {
        if text::occurs_at(key, seq![':'], j) {
            assert(key.subrange(j, j + 1)[0] == key[j]);
            assert(key.contains(key[j]));
        }
    }
    text::lemma_find_none(key, seq![':']);
    law_value_may_hold_colons(key, value, name);
}

proof fn lemma_no_line_value(line: Seq<char>, name: Seq<char>)
    requires
        !names_header(line, name),
    ensures
        line_value(line, name) is None,
{
    text::lemma_find(line, seq![':']);
    if let Some(i) = text::find(line, seq![':']) {
        let key = line.take(i);
        let value = line.skip(i + 1);
        assert(line.subrange(i, i + 1)[0] == ':');
        assert(line =~= key + seq![':'] + value);
        assert(!key.contains(':')) by {
            if key.contains(':') {
                let j = choose|j: int| 0 <= j < key.len() && key[j] == ':';
                assert(line.subrange(j, j + 1) =~= seq![':']);
                assert(text::occurs_at(line, seq![':'], j));
            }
        }
        if same_ignoring_case(text::trimmed(key), name) {
            assert(is_header_line(line, name, key, value));
        }
    }
}

proof fn lemma_first_value(lines: Seq<Seq<char>>, name: Seq<char>, k: int, key: Seq<char>, value: Seq<
    char,
>)
    requires
        0 <= k <= lines.len(),
        forall|j: int| 0 <= j < k ==> !names_header(#[trigger] lines[j], name),
        k < lines.len() ==> is_header_line(lines[k], name, key, value),
    ensures
        first_value(lines, name) == if k < lines.len() {
            Some(text::trimmed(value))
        } else {
            None
        },
    decreases lines.len(),
{
    if lines.len() > 0 {
        if k == 0 {
            lemma_line_value(lines[0], name, key, value);
        } else {
            assert(!names_header(lines[0], name));
            lemma_no_line_value(lines[0], name);
            let rest = lines.drop_first();
            assert forall|j: int| 0 <= j < k - 1 implies !names_header(#[trigger] rest[j], name) by {
                assert(rest[j] == lines[j + 1]);
            }
            lemma_first_value(rest, name, k - 1, key, value);
        }
    }
}

/// A header is found wherever its line stands behind the first one: the first
/// line that says it gives its value, without the white space around it,
/// whatever the lines before it hold.
pub proof fn law_headers_are_found_wherever_they_stand(
    lines: Seq<Seq<char>>,
    name: Seq<char>,
    k: int,
    key: Seq<char>,
    value: Seq<char>,
)
    requires
        1 <= k < lines.len(),
        forall|i: int| 0 <= i < lines.len() ==> is_line(#[trigger] lines[i]),
        forall|j: int| 1 <= j < k ==> !names_header(#[trigger] lines[j], name),
        is_header_line(lines[k], name, key, value),
    ensures
        header(message_of(lines), name) == Some(text::trimmed(value)),
{
    lemma_message_splits(lines);
    let rest = lines.drop_first();
    assert forall|j: int| 0 <= j < k - 1 implies !names_header(#[trigger] rest[j], name) by {
        assert(rest[j] == lines[j + 1]);
    }
    lemma_first_value(rest, name, k - 1, key, value);
}

/// A header that no line behind the first one says is not there.
pub proof fn law_headers_that_no_line_says_are_not_there(lines: Seq<Seq<char>>, name: Seq<char>)
    requires
        0 < lines.len(),
        forall|i: int| 0 <= i < lines.len() ==> is_line(#[trigger] lines[i]),
        forall|j: int| 1 <= j < lines.len() ==> !names_header(#[trigger] lines[j], name),
    ensures
        header(message_of(lines), name) is None,
{
    lemma_message_splits(lines);
    let rest = lines.drop_first();
    assert forall|j: int| 0 <= j < rest.len() implies !names_header(#[trigger] rest[j], name) by {
        assert(rest[j] == lines[j + 1]);
    }
    lemma_first_value(rest, name, rest.len() as int, Seq::empty(), Seq::empty());
}

/// Whether "vizio" stands in a text at this index, in any letter case.
pub open spec fn brand_at(s: Seq<char>, i: int) -> bool {
    0 <= i && i + 5 <= s.len() && text::lowered(s).subrange(i, i + 5) == seq![
        'v',
        'i',
        'z',
        'i',
        'o',
    ]
}

/// Whether a header of a message has "vizio" in its value.
pub open spec fn header_branded(message: Seq<char>, name: Seq<char>) -> bool {
    header(message, name) matches Some(value) && exists|i: int| brand_at(value, i)
}

proof fn lemma_brand(s: Seq<char>)
    ensures
        forall|i: int| #[trigger] brand_at(s, i) <==> text::occurs_at(text::lowered(s), "vizio"@, i),
        text::find(text::lowered(s), "vizio"@) is Some <==> exists|i: int| brand_at(s, i),
{
    reveal_strlit("vizio");
    let low = text::lowered(s);
    assert("vizio"@ =~= seq!['v', 'i', 'z', 'i', 'o']);
    text::lemma_find(low, "vizio"@);
    assert forall|i: int| #[trigger] brand_at(s, i) <==> text::occurs_at(low, "vizio"@, i) by {}
    if let Some(i) = text::find(low, "vizio"@) {
        assert(brand_at(s, i));
    }
}

/// A message speaks for a television exactly if it starts with "HTTP/" and one
/// of the headers `SERVER`, `USN` and `LOCATION` has "vizio" in its value. The
/// entry then has the host that the message came from, and a name that ends
/// with that host in brackets.
pub proof fn law_branded_replies_are_listed(message: Seq<char>, host: Seq<char>)
    ensures
        message_tv(message, host) is Some <==> {
            &&& message.len() >= 5
            &&& message.take(5) == seq!['H', 'T', 'T', 'P', '/']
            &&& {
                ||| header_branded(message, seq!['S', 'E', 'R', 'V', 'E', 'R'])
                ||| header_branded(message, seq!['U', 'S', 'N'])
                ||| header_branded(message, seq!['L', 'O', 'C', 'A', 'T', 'I', 'O', 'N'])
            }
        },
        message_tv(message, host) matches Some(tv) ==> tv.host == host,
{
    reveal_strlit("HTTP/");
    reveal_strlit("SERVER");
    reveal_strlit("USN");
    reveal_strlit("LOCATION");
    assert("HTTP/"@ =~= seq!['H', 'T', 'T', 'P', '/']);
    assert("SERVER"@ =~= seq!['S', 'E', 'R', 'V', 'E', 'R']);
    assert("USN"@ =~= seq!['U', 'S', 'N']);
    assert("LOCATION"@ =~= seq!['L', 'O', 'C', 'A', 'T', 'I', 'O', 'N']);
    if message.len() >= 5 {
        assert(message.take(5) =~= message.subrange(0, 5));
    }
    if let Some(value) = header(message, "SERVER"@) {
        lemma_brand(value);
    }
    if let Some(value) = header(message, "USN"@) {
        lemma_brand(value);
    }
    if let Some(value) = header(message, "LOCATION"@) {
        lemma_brand(value);
    }
}

/// The branded part of a text is what stands there from the first "vizio" up to
/// the next slash or else to the end, without the white space around it.
pub proof fn law_segments_run_from_the_brand_to_the_slash(
    before: Seq<char>,
    part: Seq<char>,
    tail: Seq<char>,
)
    requires
        brand_at(before + part + tail, before.len() as int),
        forall|i: int| i < before.len() ==> !brand_at(before + part + tail, i),
        !part.contains('/'),
        tail.len() > 0 ==> tail[0] == '/',
    ensures
        segment(before + part + tail) == Some(text::trimmed(part)),
{
    let server = before + part + tail;
    let low = text::lowered(server);
    let n = before.len() as int;
    lemma_brand(server);
    assert(text::occurs_at(low, "vizio"@, n));
    assert forall|j: int| 0 <= j < n implies !text::occurs_at(low, "vizio"@, j) by {
        assert(!brand_at(server, j));
    }
    text::lemma_find_is(low, "vizio"@, n);
    let rest = server.skip(n);
    if tail.len() > 0 {
        assert(rest =~= part + seq!['/'] + tail.drop_first());
        text::law_before_stops_at_the_first_place(part, '/', tail.drop_first());
    } else {
        assert(rest =~= part);
        text::law_before_stops_at_the_first_place(part, '/', tail);
    }
}

/// A text has a branded part exactly if it says "vizio", in any letter case.
pub proof fn law_segments_need_the_brand(server: Seq<char>)
    ensures
        segment(server) is Some <==> exists|i: int| brand_at(server, i),
{
    lemma_brand(server);
}

/// A television is named by the branded part of its `SERVER` header.
pub proof fn law_servers_name_their_television(
    message: Seq<char>,
    host: Seq<char>,
    before: Seq<char>,
    part: Seq<char>,
    tail: Seq<char>,
)
    requires
        message_tv(message, host) is Some,
        header(message, seq!['S', 'E', 'R', 'V', 'E', 'R']) == Some(before + part + tail),
        brand_at(before + part + tail, before.len() as int),
        forall|i: int| i < before.len() ==> !brand_at(before + part + tail, i),
        !part.contains('/'),
        tail.len() > 0 ==> tail[0] == '/',
    ensures
        message_tv(message, host)->0.name == text::trimmed(part) + seq![' ', '('] + host
            + seq![')'],
{
    reveal_strlit("SERVER");
    assert("SERVER"@ =~= seq!['S', 'E', 'R', 'V', 'E', 'R']);
    reveal_strlit(" (");
    reveal_strlit(")");
    assert(" ("@ =~= seq![' ', '(']);
    assert(")"@ =~= seq![')']);
    law_segments_run_from_the_brand_to_the_slash(before, part, tail);
    law_segment_is_branded(before + part + tail);
    assert(message_tv(message, host)->0.name =~= text::trimmed(part) + seq![' ', '('] + host + seq![
        ')',
    ]);
}

/// A television whose `SERVER` header is missing, or does not say "vizio", is
/// called "Vizio TV".
pub proof fn law_other_televisions_have_a_common_name(message: Seq<char>, host: Seq<char>)
    requires
        message_tv(message, host) is Some,
        !header_branded(message, seq!['S', 'E', 'R', 'V', 'E', 'R']),
    ensures
        message_tv(message, host)->0.name == seq!['V', 'i', 'z', 'i', 'o', ' ', 'T', 'V', ' ', '(']
            + host + seq![')'],
{
    reveal_strlit("SERVER");
    assert("SERVER"@ =~= seq!['S', 'E', 'R', 'V', 'E', 'R']);
    reveal_strlit("Vizio TV");
    reveal_strlit(" (");
    reveal_strlit(")");
    if let Some(value) = header(message, "SERVER"@) {
        lemma_brand(value);
    }
    assert(message_tv(message, host)->0.name =~= seq![
        'V',
        'i',
        'z',
        'i',
        'o',
        ' ',
        'T',
        'V',
        ' ',
        '(',
    ] + host + seq![')']);
}

/// A datagram gives the entry of the text that it encodes, under the four
/// numbers of the IPv4 address that it came from with dots between them. One
/// that is no text, or comes from another kind of address, gives none.
pub proof fn law_datagrams_give_the_entry_of_their_text(
    message: Seq<char>,
    reply: Seq<u8>,
    a: u8,
    b: u8,
    c: u8,
    d: u8,
)
    ensures
        reply_tv(vstd::utf8::encode_utf8(message), Source::V4(a, b, c, d)) == message_tv(
            message,
            text::decimal(a as nat) + seq!['.'] + text::decimal(b as nat) + seq!['.']
                + text::decimal(c as nat) + seq!['.'] + text::decimal(d as nat),
        ),
        !vstd::utf8::valid_utf8(reply) ==> reply_tv(reply, Source::V4(a, b, c, d)) is None,
        reply_tv(reply, Source::V6) is None,
{
    vstd::utf8::encode_utf8_valid_utf8(message);
    vstd::utf8::encode_utf8_decode_utf8(message);
}

/// A reply of these lines is listed where one of them gives `SERVER`, `USN` or
/// `LOCATION` a value with "vizio" in it and no line before it gives that header
/// another, whatever the other lines hold.
pub proof fn law_branded_lines_list_their_television(
    lines: Seq<Seq<char>>,
    name: Seq<char>,
    k: int,
    key: Seq<char>,
    value: Seq<char>,
    i: int,
    host: Seq<char>,
)
    requires
        name == seq!['S', 'E', 'R', 'V', 'E', 'R'] || name == seq!['U', 'S', 'N'] || name == seq![
            'L',
            'O',
            'C',
            'A',
            'T',
            'I',
            'O',
            'N',
        ],
        1 <= k < lines.len(),
        forall|i: int| 0 <= i < lines.len() ==> is_line(#[trigger] lines[i]),
        lines[0].len() >= 5,
        lines[0].take(5) == seq!['H', 'T', 'T', 'P', '/'],
        forall|j: int| 1 <= j < k ==> !names_header(#[trigger] lines[j], name),
        is_header_line(lines[k], name, key, value),
        brand_at(text::trimmed(value), i),
    ensures
        message_tv(message_of(lines), host) matches Some(tv) && tv.host == host,
{
    let message = message_of(lines);
    law_headers_are_found_wherever_they_stand(lines, name, k, key, value);
    assert(brand_at(header(message, name)->0, i));
    assert(header_branded(message, name));
    assert(message =~= lines[0] + seq!['\r', '\n'] + message_of(lines.drop_first()));
    assert(message.take(5) =~= lines[0].take(5));
    law_branded_replies_are_listed(message, host);
}

} // verus!
