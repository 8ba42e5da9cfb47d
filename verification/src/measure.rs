//! How much of the text of a URL is counted when it is read. `url` counts the
//! slashes behind the scheme and the characters of the authority in integers
//! of 32 bits, so a text is read only if these counts have room there. The
//! rest of the text may be of any length.

use vstd::prelude::*;

use crate::text;
use crate::text::{chars_of, find_in, lower_chars, same_chars};

verus! {

// ---------------------------------------------------------------------------
// Counts
// ---------------------------------------------------------------------------

/// Characters that are left out at both ends of a URL.
pub open spec fn is_control(c: char) -> bool {
    c <= ' '
}

/// Characters that are passed over wherever they stand in a URL.
pub open spec fn is_passed_over(c: char) -> bool {
    c == '\t' || c == '\n' || c == '\r'
}

pub open spec fn is_slash(c: char) -> bool {
    c == '/' || c == '\\'
}

/// Characters that end the authority of an `https` URL.
pub open spec fn ends_authority(c: char) -> bool {
    is_slash(c) || c == '?' || c == '#'
}

/// Where `s` goes on from index `i` once the controls there are left out.
pub open spec fn first_visible(s: Seq<char>, i: int) -> int
    decreases s.len() - i,
{
    if 0 <= i < s.len() && is_control(s[i]) {
        first_visible(s, i + 1)
    } else {
        i
    }
}

/// Where `s` up to index `j` ends once the controls there are left out.
pub open spec fn last_visible(s: Seq<char>, j: int) -> int
    decreases j,
{
    if 0 < j <= s.len() && is_control(s[j - 1]) {
        last_visible(s, j - 1)
    } else {
        j
    }
}

/// `s` without the controls at both its ends.
pub open spec fn body_of(s: Seq<char>) -> Seq<char> {
    let from = first_visible(s, 0);
    let to = last_visible(s, s.len() as int);
    if from <= to {
        s.subrange(from, to)
    } else {
        Seq::empty()
    }
}

/// The first `i` characters of `s` without those that are passed over.
pub open spec fn shown(s: Seq<char>, i: int) -> Seq<char>
    decreases i,
{
    if i <= 0 {
        Seq::empty()
    } else if is_passed_over(s[i - 1]) {
        shown(s, i - 1)
    } else {
        shown(s, i - 1).push(s[i - 1])
    }
}

/// How many slashes stand in `s` from index `i` on, before anything else.
pub open spec fn slash_count(s: Seq<char>, i: int) -> nat
    decreases s.len() - i,
{
    if 0 <= i < s.len() && is_passed_over(s[i]) {
        slash_count(s, i + 1)
    } else if 0 <= i < s.len() && is_slash(s[i]) {
        slash_count(s, i + 1) + 1
    } else {
        0
    }
}

/// Where those slashes end.
pub open spec fn slash_end(s: Seq<char>, i: int) -> int
    decreases s.len() - i,
{
    if 0 <= i < s.len() && (is_passed_over(s[i]) || is_slash(s[i])) {
        slash_end(s, i + 1)
    } else {
        i
    }
}

/// How many characters the authority has that starts at index `i`.
pub open spec fn authority_len(s: Seq<char>, i: int) -> nat
    decreases s.len() - i,
{
    if 0 <= i < s.len() && is_passed_over(s[i]) {
        authority_len(s, i + 1)
    } else if 0 <= i < s.len() && !ends_authority(s[i]) {
        authority_len(s, i + 1) + 1
    } else {
        0
    }
}

/// Whether a text without controls at its ends is one of `https` whose slashes
/// and whose authority keep these limits.
pub open spec fn counts_fit(s: Seq<char>, limit: usize, slash_limit: u64) -> bool {
    match text::find(s, seq![':']) {
        Some(i) => {
            &&& text::lowered(shown(s, i)) == "https"@
            &&& slash_count(s, i + 1) <= slash_limit
            &&& authority_len(s, slash_end(s, i + 1)) <= limit
        },
        None => false,
    }
}

/// Whether a text can be read as a URL of `https` with counts up to these
/// limits: it is short, or what is counted of it is.
pub open spec fn fits(s: Seq<char>, limit: usize, slash_limit: u64) -> bool {
    s.len() <= limit || counts_fit(body_of(s), limit, slash_limit)
}

// ---------------------------------------------------------------------------
// Code
// ---------------------------------------------------------------------------

/// The characters of `s` without the controls at both ends.
fn body_chars(s: &Vec<char>) -> (r: Vec<char>)
    ensures
        r@ == body_of(s@),
{
    let mut from: usize = 0;
    while from < s.len() && s[from] <= ' '
        invariant
            from <= s.len(),
            first_visible(s@, from as int) == first_visible(s@, 0),
        decreases s.len() - from,
    {
        from = from + 1;
    }
    let mut to: usize = s.len();
    while to > 0 && s[to - 1] <= ' '
        invariant
            to <= s.len(),
            last_visible(s@, to as int) == last_visible(s@, s@.len() as int),
        decreases to,
    {
        to = to - 1;
    }
    let mut r: Vec<char> = Vec::new();
    let mut i: usize = from;
    while i < to
        invariant
            from <= i,
            from <= to ==> i <= to,
            to <= s.len(),
            r@ == if from <= to {
                s@.subrange(from as int, i as int)
            } else {
                Seq::empty()
            },
        decreases to - i,
    {
        r.push(s[i]);
        assert(r@ =~= s@.subrange(from as int, i + 1));
        i = i + 1;
    }
    r
}

/// The first `n` characters of `s` without those that are passed over.
fn shown_chars(s: &Vec<char>, n: usize) -> (r: Vec<char>)
    requires
        n <= s.len(),
    ensures
        r@ == shown(s@, n as int),
{
    let mut r: Vec<char> = Vec::new();
    let mut i: usize = 0;
    while i < n
        invariant
            i <= n <= s.len(),
            r@ == shown(s@, i as int),
        decreases n - i,
    {
        let c = s[i];
        if !(c == '\t' || c == '\n' || c == '\r') {
            r.push(c);
        }
        i = i + 1;
    }
    r
}

/// How many slashes stand in `s` from index `from` on, and where they end.
fn count_slashes(s: &Vec<char>, from: usize) -> (r: (usize, usize))
    requires
        from <= s.len(),
    ensures
        r.0 == slash_count(s@, from as int),
        r.1 == slash_end(s@, from as int),
        r.1 <= s.len(),
{
    let mut i: usize = from;
    let mut n: usize = 0;
    while i < s.len() && (s[i] == '\t' || s[i] == '\n' || s[i] == '\r' || s[i] == '/' || s[i]
        == '\\')
        invariant
            from <= i <= s.len(),
            n <= i,
            n + slash_count(s@, i as int) == slash_count(s@, from as int),
            slash_end(s@, i as int) == slash_end(s@, from as int),
        decreases s.len() - i,
    {
        if s[i] == '/' || s[i] == '\\' {
            n = n + 1;
        }
        i = i + 1;
    }
    (n, i)
}

/// How many characters the authority has that starts at index `from`.
fn count_authority(s: &Vec<char>, from: usize) -> (r: usize)
    requires
        from <= s.len(),
    ensures
        r == authority_len(s@, from as int),
{
    let mut i: usize = from;
    let mut n: usize = 0;
    while i < s.len() && s[i] != '/' && s[i] != '\\' && s[i] != '?' && s[i] != '#'
        invariant
            from <= i <= s.len(),
            n <= i,
            n + authority_len(s@, i as int) == authority_len(s@, from as int),
        decreases s.len() - i,
    {
        if !(s[i] == '\t' || s[i] == '\n' || s[i] == '\r') {
            n = n + 1;
        }
        i = i + 1;
    }
    n
}

/// Whether a text can be read as a URL of `https` with counts up to these
/// limits.
pub fn url_fits(input: &str, limit: usize, slash_limit: u64) -> (r: bool)
    ensures
        r == fits(input@, limit, slash_limit),
{
    if input.unicode_len() <= limit {
        return true;
    }
    let s = body_chars(&chars_of(input));
    proof {
        reveal_strlit(":");
        assert(":"@ =~= seq![':']);
        assert(s@.subrange(0, s@.len() as int) =~= s@);
    }
    match find_in(&s, 0, s.len(), ":") {
        Some(colon) => {
            let scheme = lower_chars(&shown_chars(&s, colon));
            let (slashes, start) = count_slashes(&s, colon + 1);
            same_chars(&scheme, &chars_of("https")) && slashes as u64 <= slash_limit
                && count_authority(&s, start) <= limit
        },
        None => false,
    }
}

// ---------------------------------------------------------------------------
// Lemmas
// ---------------------------------------------------------------------------

proof fn lemma_last_visible(s: Seq<char>, j: int, k: int)
    requires
        0 <= k < j <= s.len(),
        !is_control(s[k]),
    ensures
        k < last_visible(s, j) <= j,
    decreases j,
{
    if is_control(s[j - 1]) {
        lemma_last_visible(s, j - 1, k);
    }
}

proof fn lemma_authority_len(s: Seq<char>, i: int, n: nat)
    requires
        0 <= i <= i + n <= s.len(),
        forall|k: int|
            i <= k < i + n ==> !is_passed_over(#[trigger] s[k]) && !ends_authority(s[k]),
        i + n < s.len() ==> ends_authority(s[i + n]),
    ensures
        authority_len(s, i) == n,
    decreases n,
{
    if n > 0 {
        lemma_authority_len(s, i + 1, (n - 1) as nat);
    }
}

/// A text of `https` fits if the characters up to the first slash behind its
/// scheme do.
pub(crate) proof fn lemma_fits(front: Seq<char>, tail: Seq<char>, limit: usize, slash_limit: u64)
    requires
        0 < front.len() <= limit,
        2 <= slash_limit,
        forall|k: int|
            0 <= k < front.len() ==> !is_control(#[trigger] front[k]) && !ends_authority(front[k]),
        tail.len() > 0 ==> tail[0] == '/',
    ensures
        fits("https://"@ + (front + tail), limit, slash_limit),
{
    let s = "https://"@ + (front + tail);
    let n = front.len() as int;
    reveal_strlit("https://");
    reveal_strlit("https");
    assert(forall|k: int| 0 <= k < n ==> s[8 + k] == front[k]);
    let to = last_visible(s, s.len() as int);
    if tail.len() > 0 {
        assert(s[8 + n] == '/');
        lemma_last_visible(s, s.len() as int, 8 + n);
    } else {
        assert(!is_control(front[n - 1]));
        lemma_last_visible(s, s.len() as int, 8 + n - 1);
    }
    assert(first_visible(s, 0) == 0);
    let b = body_of(s);
    assert(b =~= s.take(to));
    assert(text::occurs_at(b, seq![':'], 5)) by {
        assert(b.subrange(5, 6) =~= seq![':']);
    }
    assert forall|j: int| 0 <= j < 5 implies !text::occurs_at(b, seq![':'], j) by {
        assert(b.subrange(j, j + 1)[0] == b[j]);
    }
    text::lemma_find_is(b, seq![':'], 5);
    reveal_with_fuel(shown, 6);
    assert(shown(b, 5) =~= "https"@);
    assert(text::lowered("https"@) =~= "https"@);
    assert(!is_control(front[0]) && !ends_authority(front[0]));
    assert(b[8] == front[0]);
    reveal_with_fuel(slash_count, 3);
    reveal_with_fuel(slash_end, 3);
    assert(slash_count(b, 8) == 0);
    assert(slash_end(b, 8) == 8);
    assert(slash_count(b, 6) == 2);
    assert(slash_end(b, 6) == 8);
    assert forall|k: int| 8 <= k < 8 + n implies !is_passed_over(#[trigger] b[k])
        && !ends_authority(b[k]) by {
        assert(b[k] == front[k - 8]);
    }
    lemma_authority_len(b, 8, front.len());
}

} // verus!
