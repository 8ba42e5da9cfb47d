//! Text as sequences of characters: searching, trimming, letter case and
//! decimal numbers, each as a mathematical function and as code proved
//! against it.

use vstd::prelude::*;

verus! {

/// A text that may be missing, as a mathematical value.
pub open spec fn option_view(t: Option<String>) -> Option<Seq<char>> {
    match t {
        Some(t) => Some(t@),
        None => None,
    }
}

/// Characters with the Unicode property `White_Space`.
pub open spec fn is_white_space(c: char) -> bool {
    ||| '\u{9}' <= c <= '\u{d}'
    ||| c == ' '
    ||| c == '\u{85}'
    ||| c == '\u{a0}'
    ||| c == '\u{1680}'
    ||| '\u{2000}' <= c <= '\u{200a}'
    ||| c == '\u{2028}'
    ||| c == '\u{2029}'
    ||| c == '\u{202f}'
    ||| c == '\u{205f}'
    ||| c == '\u{3000}'
}

/// `s` without its leading white space.
pub open spec fn trim_start(s: Seq<char>) -> Seq<char>
    decreases s.len(),
{
    if s.len() > 0 && is_white_space(s[0]) {
        trim_start(s.drop_first())
    } else {
        s
    }
}

/// `s` without its trailing white space.
pub open spec fn trim_end(s: Seq<char>) -> Seq<char>
    decreases s.len(),
{
    if s.len() > 0 && is_white_space(s.last()) {
        trim_end(s.drop_last())
    } else {
        s
    }
}

/// `s` without the white space around it.
pub open spec fn trimmed(s: Seq<char>) -> Seq<char> {
    trim_end(trim_start(s))
}

/// An ASCII capital letter becomes its small letter; nothing else changes.
pub open spec fn ascii_lower(c: char) -> char {
    if 'A' <= c <= 'Z' {
        ((c as u8) + 32) as char
    } else {
        c
    }
}

/// `s` with every ASCII capital letter made small.
pub open spec fn lowered(s: Seq<char>) -> Seq<char> {
    Seq::new(s.len(), |i: int| ascii_lower(s[i]))
}

/// Whether `pat` stands in `s` at index `i`.
pub open spec fn occurs_at(s: Seq<char>, pat: Seq<char>, i: int) -> bool {
    0 <= i && i + pat.len() <= s.len() && s.subrange(i, i + pat.len()) == pat
}

/// Where `pat` first stands in `s`.
pub open spec fn find(s: Seq<char>, pat: Seq<char>) -> Option<int>
    decreases s.len(),
{
    if occurs_at(s, pat, 0) {
        Some(0)
    } else if s.len() == 0 {
        None
    } else {
        match find(s.drop_first(), pat) {
            Some(i) => Some(i + 1),
            None => None,
        }
    }
}

/// Where the character `c` last stands in `s`.
pub open spec fn find_last(s: Seq<char>, c: char) -> Option<int>
    decreases s.len(),
{
    if s.len() == 0 {
        None
    } else if s.last() == c {
        Some(s.len() - 1)
    } else {
        find_last(s.drop_last(), c)
    }
}

/// The pieces of `s` between the occurrences of `sep`, from left to right.
pub open spec fn split(s: Seq<char>, sep: Seq<char>) -> Seq<Seq<char>>
    decreases s.len(),
{
    match find(s, sep) {
        Some(i) if 0 <= i && 0 < sep.len() && i + sep.len() <= s.len() => seq![s.take(i)] + split(
            s.skip(i + sep.len()),
            sep,
        ),
        _ => seq![s],
    }
}

/// The part of `s` before the first `c`; all of `s` if it holds no `c`.
pub open spec fn before(s: Seq<char>, c: char) -> Seq<char> {
    match find(s, seq![c]) {
        Some(i) => s.take(i),
        None => s,
    }
}

pub open spec fn is_digit(c: char) -> bool {
    '0' <= c <= '9'
}

/// The digit that stands for `n`, which is less than ten.
pub open spec fn digit(n: nat) -> char {
    (48 + n) as char
}

/// The decimal number that stands for `n`, without leading zeros.
pub open spec fn decimal(n: nat) -> Seq<char>
    decreases n,
{
    if n < 10 {
        seq![digit(n)]
    } else {
        decimal(n / 10).push(digit(n % 10))
    }
}

/// What `find` returns: the first place where `pat` stands, if there is one.
pub(crate) proof fn lemma_find(s: Seq<char>, pat: Seq<char>)
    ensures
        match find(s, pat) {
            Some(i) => occurs_at(s, pat, i) && forall|j: int| 0 <= j < i ==> !occurs_at(s, pat, j),
            None => forall|j: int| !occurs_at(s, pat, j),
        },
    decreases s.len(),
{
    if !occurs_at(s, pat, 0) && s.len() > 0 {
        let t = s.drop_first();
        lemma_find(t, pat);
        assert forall|j: int| occurs_at(s, pat, j + 1) == (j >= 0 && occurs_at(t, pat, j)) || j < 0 by {
            if j >= 0 && j + 1 + pat.len() <= s.len() {
                assert(t.subrange(j, j + pat.len()) =~= s.subrange(j + 1, j + 1 + pat.len()));
            }
        }
        match find(t, pat) {
            Some(i) => {
                assert(occurs_at(s, pat, i + 1));
                assert forall|j: int| 0 <= j < i + 1 implies !occurs_at(s, pat, j) by {
                    if j > 0 {
                        assert(occurs_at(s, pat, (j - 1) + 1) == occurs_at(t, pat, j - 1));
                    }
                }
            },
            None => {
                assert forall|j: int| !occurs_at(s, pat, j) by {
                    if j > 0 {
                        assert(occurs_at(s, pat, (j - 1) + 1) == occurs_at(t, pat, j - 1));
                    }
                }
            },
        }
    }
}

/// The first place is the only one with no earlier one.
pub(crate) proof fn lemma_find_is(s: Seq<char>, pat: Seq<char>, i: int)
    requires
        occurs_at(s, pat, i),
        forall|j: int| 0 <= j < i ==> !occurs_at(s, pat, j),
    ensures
        find(s, pat) == Some(i),
{
    lemma_find(s, pat);
}

pub(crate) proof fn lemma_find_none(s: Seq<char>, pat: Seq<char>)
    requires
        forall|j: int| !occurs_at(s, pat, j),
    ensures
        find(s, pat) is None,
{
    lemma_find(s, pat);
}

/// What `find_last` returns: the last place where `c` stands, if there is one.
pub(crate) proof fn lemma_find_last(s: Seq<char>, c: char)
    ensures
        match find_last(s, c) {
            Some(i) => 0 <= i < s.len() && s[i] == c && forall|j: int|
                i < j < s.len() ==> s[j] != c,
            None => forall|j: int| 0 <= j < s.len() ==> s[j] != c,
        },
    decreases s.len(),
{
    if s.len() > 0 && s.last() != c {
        let t = s.drop_last();
        lemma_find_last(t, c);
        assert forall|j: int| 0 <= j < s.len() && s[j] == c implies j < t.len() && t[j] == c by {}
    }
}

/// Whether `part` stands somewhere in `s`.
pub open spec fn part_of(part: Seq<char>, s: Seq<char>) -> bool {
    exists|i: int| occurs_at(s, part, i)
}

pub(crate) proof fn lemma_subrange_is_part(s: Seq<char>, i: int, j: int)
    requires
        0 <= i <= j <= s.len(),
    ensures
        part_of(s.subrange(i, j), s),
{
    assert(occurs_at(s, s.subrange(i, j), i));
}

pub(crate) proof fn lemma_part_of_part(a: Seq<char>, b: Seq<char>, c: Seq<char>)
    requires
        part_of(a, b),
        part_of(b, c),
    ensures
        part_of(a, c),
{
    let i = choose|i: int| occurs_at(b, a, i);
    let j = choose|j: int| occurs_at(c, b, j);
    assert(c.subrange(i + j, i + j + a.len()) =~= c.subrange(j, j + b.len()).subrange(
        i,
        i + a.len(),
    ));
    assert(occurs_at(c, a, i + j));
}

pub(crate) proof fn lemma_lowered_part(a: Seq<char>, b: Seq<char>)
    requires
        part_of(a, b),
    ensures
        part_of(lowered(a), lowered(b)),
{
    let i = choose|i: int| occurs_at(b, a, i);
    assert forall|k: int| 0 <= k < a.len() implies a[k] == b[i + k] by {
        assert(b.subrange(i, i + a.len())[k] == b[i + k]);
    }
    assert(lowered(b).subrange(i, i + a.len()) =~= lowered(a));
    assert(occurs_at(lowered(b), lowered(a), i));
}

/// Only leading white space is cut off, and all of it.
pub(crate) proof fn lemma_trim_start(s: Seq<char>)
    ensures
        trim_start(s).len() <= s.len(),
        trim_start(s) == s.skip(s.len() - trim_start(s).len()),
        trim_start(s).len() > 0 ==> !is_white_space(trim_start(s)[0]),
        forall|j: int| 0 <= j < s.len() - trim_start(s).len() ==> is_white_space(#[trigger] s[j]),
    decreases s.len(),
{
    if s.len() > 0 && is_white_space(s[0]) {
        let t = s.drop_first();
        lemma_trim_start(t);
        let k = t.len() - trim_start(t).len();
        assert(t.skip(k) =~= s.skip(k + 1));
        assert forall|j: int| 0 <= j < k + 1 implies is_white_space(#[trigger] s[j]) by {
            if j > 0 {
                assert(t[j - 1] == s[j]);
            }
        }
    } else {
        assert(s.skip(0) =~= s);
    }
}

/// Only trailing white space is cut off, and all of it.
pub(crate) proof fn lemma_trim_end(s: Seq<char>)
    ensures
        trim_end(s).len() <= s.len(),
        trim_end(s) == s.take(trim_end(s).len() as int),
        trim_end(s).len() > 0 ==> !is_white_space(trim_end(s).last()),
        forall|j: int| trim_end(s).len() <= j < s.len() ==> is_white_space(#[trigger] s[j]),
    decreases s.len(),
{
    if s.len() > 0 && is_white_space(s.last()) {
        let t = s.drop_last();
        lemma_trim_end(t);
        let k = trim_end(t).len() as int;
        assert(t.take(k) =~= s.take(k));
        assert forall|j: int| k <= j < s.len() implies is_white_space(#[trigger] s[j]) by {
            if j < t.len() {
                assert(t[j] == s[j]);
            }
        }
    } else {
        assert(s.take(s.len() as int) =~= s);
    }
}

pub(crate) proof fn lemma_trimmed_is_part(s: Seq<char>)
    ensures
        part_of(trimmed(s), s),
{
    let t = trim_start(s);
    lemma_trim_start(s);
    lemma_trim_end(t);
    let k = s.len() - t.len();
    let n = trimmed(s).len() as int;
    assert(s.subrange(k, k + n) =~= trimmed(s));
    lemma_subrange_is_part(s, k, k + n);
}

pub(crate) proof fn lemma_pieces_are_parts(s: Seq<char>, sep: Seq<char>, k: int)
    requires
        0 <= k < split(s, sep).len(),
    ensures
        part_of(split(s, sep)[k], s),
    decreases s.len(),
{
    match find(s, sep) {
        Some(i) if 0 <= i && 0 < sep.len() && i + sep.len() <= s.len() => {
            let rest = s.skip(i + sep.len());
            if k == 0 {
                assert(s.take(i) =~= s.subrange(0, i));
                lemma_subrange_is_part(s, 0, i);
            } else {
                assert(split(s, sep)[k] == split(rest, sep)[k - 1]);
                lemma_pieces_are_parts(rest, sep, k - 1);
                assert(rest =~= s.subrange(i + sep.len(), s.len() as int));
                lemma_subrange_is_part(s, i + sep.len(), s.len() as int);
                lemma_part_of_part(split(rest, sep)[k - 1], rest, s);
            }
        },
        _ => {
            assert(s =~= s.subrange(0, s.len() as int));
            lemma_subrange_is_part(s, 0, s.len() as int);
        },
    }
}

/// The characters of `s`, in order.
pub(crate) fn chars_of(s: &str) -> (r: Vec<char>)
    ensures
        r@ == s@,
{
    let mut r: Vec<char> = Vec::new();
    for c in it: s.chars()
        invariant
            r@ == it.seq().take(it.index()),
            it.seq() == s@,
    {
        r.push(c);
    }
    assert(r@ == s@);
    r
}

/// Whether two texts hold the same characters.
pub(crate) fn same_chars(a: &Vec<char>, b: &Vec<char>) -> (r: bool)
    ensures
        r == (a@ == b@),
{
    if a.len() != b.len() {
        return false;
    }
    let mut i: usize = 0;
    while i < a.len()
        invariant
            i <= a.len(),
            a.len() == b.len(),
            forall|j: int| 0 <= j < i ==> a[j] == b[j],
        decreases a.len() - i,
    {
        if a[i] != b[i] {
            return false;
        }
        i = i + 1;
    }
    assert(a@ =~= b@);
    true
}

/// Whether two texts hold the same characters.
pub(crate) fn same_text(a: &str, b: &str) -> (r: bool)
    ensures
        r == (a@ == b@),
{
    same_chars(&chars_of(a), &chars_of(b))
}

/// Whether `pat` stands in `s` at index `i` and ends by index `to`.
fn stands_at(s: &Vec<char>, pat: &Vec<char>, i: usize, to: usize) -> (r: bool)
    requires
        i <= to <= s.len(),
    ensures
        r == (i + pat.len() <= to && s@.subrange(i as int, i + pat.len()) == pat@),
{
    if pat.len() > to - i {
        return false;
    }
    let mut k: usize = 0;
    while k < pat.len()
        invariant
            k <= pat.len(),
            i + pat.len() <= to <= s.len(),
            forall|j: int| 0 <= j < k ==> s[i + j] == pat[j],
        decreases pat.len() - k,
    {
        if s[i + k] != pat[k] {
            assert(s@.subrange(i as int, i + pat.len())[k as int] != pat@[k as int]);
            return false;
        }
        k = k + 1;
    }
    assert(s@.subrange(i as int, i + pat.len()) =~= pat@);
    true
}

/// Searches the characters of `s` from index `from` up to `to` for `pat`; the
/// index returned counts from the start of `s`.
pub(crate) fn find_in(s: &Vec<char>, from: usize, to: usize, pat: &str) -> (r: Option<usize>)
    requires
        from <= to <= s.len(),
    ensures
        match r {
            Some(i) => {
                &&& from <= i
                &&& i + pat@.len() <= to
                &&& find(s@.subrange(from as int, to as int), pat@) == Some(i - from)
            },
            None => find(s@.subrange(from as int, to as int), pat@) is None,
        },
{
    let p = chars_of(pat);
    let ghost sub = s@.subrange(from as int, to as int);
    let mut i: usize = from;
    loop
        invariant
            from <= i <= to <= s.len(),
            p@ == pat@,
            sub == s@.subrange(from as int, to as int),
            forall|j: int| 0 <= j < i - from ==> !occurs_at(sub, p@, j),
        decreases to - i,
    {
        proof {
            if i + p.len() <= to {
                assert(sub.subrange(i - from, i - from + p.len()) =~= s@.subrange(
                    i as int,
                    i + p.len(),
                ));
            }
        }
        if stands_at(s, &p, i, to) {
            proof {
                lemma_find_is(sub, p@, i - from);
            }
            return Some(i);
        }
        if i == to {
            proof {
                assert(!occurs_at(sub, p@, to - from));
                assert forall|j: int| !occurs_at(sub, p@, j) by {
                    if j > to - from {
                        assert(sub.len() == to - from);
                    }
                }
                lemma_find_none(sub, p@);
            }
            return None;
        }
        i = i + 1;
    }
}

/// Searches `s` for the text `pat`.
pub(crate) fn contains(s: &str, pat: &str) -> (r: bool)
    ensures
        r == (find(s@, pat@) is Some),
{
    let cs = chars_of(s);
    assert(cs@.subrange(0, cs@.len() as int) =~= s@);
    find_in(&cs, 0, cs.len(), pat).is_some()
}

/// Searches the characters of `s` from index `from` up to `to` for the last
/// `c`; the index returned counts from the start of `s`.
pub(crate) fn find_last_in(s: &Vec<char>, from: usize, to: usize, c: char) -> (r: Option<usize>)
    requires
        from <= to <= s.len(),
    ensures
        match r {
            Some(i) => {
                &&& from <= i < to
                &&& find_last(s@.subrange(from as int, to as int), c) == Some(i - from)
            },
            None => find_last(s@.subrange(from as int, to as int), c) is None,
        },
{
    let ghost sub = s@.subrange(from as int, to as int);
    let mut i: usize = to;
    while i > from
        invariant
            from <= i <= to <= s.len(),
            sub == s@.subrange(from as int, to as int),
            forall|j: int| i - from <= j < to - from ==> sub[j] != c,
        decreases i - from,
    {
        if s[i - 1] == c {
            proof {
                lemma_find_last(sub, c);
                assert(sub[i - 1 - from] == c);
            }
            return Some(i - 1);
        }
        i = i - 1;
    }
    proof {
        lemma_find_last(sub, c);
    }
    None
}

/// Whether `c` is white space.
pub(crate) fn white_space(c: char) -> (r: bool)
    ensures
        r == is_white_space(c),
{
    ('\u{9}' <= c && c <= '\u{d}') || c == ' ' || c == '\u{85}' || c == '\u{a0}' || c == '\u{1680}'
        || ('\u{2000}' <= c && c <= '\u{200a}') || c == '\u{2028}' || c == '\u{2029}' || c
        == '\u{202f}' || c == '\u{205f}' || c == '\u{3000}'
}

/// Where the text from index `from` up to `to` starts and ends once the white
/// space around it is left out.
pub(crate) fn trim_range(s: &Vec<char>, from: usize, to: usize) -> (r: (usize, usize))
    requires
        from <= to <= s.len(),
    ensures
        from <= r.0 <= r.1 <= to,
        s@.subrange(r.0 as int, r.1 as int) == trimmed(s@.subrange(from as int, to as int)),
{
    let mut a: usize = from;
    while a < to && white_space(s[a])
        invariant
            from <= a <= to <= s.len(),
            trim_start(s@.subrange(a as int, to as int)) == trim_start(
                s@.subrange(from as int, to as int),
            ),
        decreases to - a,
    {
        assert(s@.subrange(a as int, to as int).drop_first() =~= s@.subrange(a + 1, to as int));
        a = a + 1;
    }
    let ghost body = s@.subrange(a as int, to as int);
    assert(trim_start(s@.subrange(from as int, to as int)) == body);
    let mut b: usize = to;
    while b > a && white_space(s[b - 1])
        invariant
            a <= b <= to <= s.len(),
            trim_end(s@.subrange(a as int, b as int)) == trim_end(body),
        decreases b - a,
    {
        assert(s@.subrange(a as int, b as int).drop_last() =~= s@.subrange(a as int, b - 1));
        b = b - 1;
    }
    assert(trim_end(s@.subrange(a as int, b as int)) == s@.subrange(a as int, b as int));
    (a, b)
}

/// An ASCII capital letter becomes its small letter; nothing else changes.
pub(crate) fn lower(c: char) -> (r: char)
    ensures
        r == ascii_lower(c),
{
    if 'A' <= c && c <= 'Z' {
        ((c as u8) + 32) as char
    } else {
        c
    }
}

/// The characters of `s` with every ASCII capital letter made small.
pub(crate) fn lower_chars(s: &Vec<char>) -> (r: Vec<char>)
    ensures
        r@ == lowered(s@),
{
    let mut r: Vec<char> = Vec::new();
    let mut i: usize = 0;
    while i < s.len()
        invariant
            i <= s.len(),
            r.len() == i,
            forall|j: int| 0 <= j < i ==> r[j] == ascii_lower(s[j]),
        decreases s.len() - i,
    {
        r.push(lower(s[i]));
        i = i + 1;
    }
    assert(r@ =~= lowered(s@));
    r
}

/// The digit that stands for `n`.
fn digit_text(n: u16) -> (r: &'static str)
    requires
        n < 10,
    ensures
        r@ == seq![digit(n as nat)],
{
    proof {
        reveal_strlit("0");
        reveal_strlit("1");
        reveal_strlit("2");
        reveal_strlit("3");
        reveal_strlit("4");
        reveal_strlit("5");
        reveal_strlit("6");
        reveal_strlit("7");
        reveal_strlit("8");
        reveal_strlit("9");
    }
    let r = match n {
        0 => "0",
        1 => "1",
        2 => "2",
        3 => "3",
        4 => "4",
        5 => "5",
        6 => "6",
        7 => "7",
        8 => "8",
        _ => "9",
    };
    assert(r@ =~= seq![digit(n as nat)]);
    r
}

/// The decimal number that stands for `n`.
pub(crate) fn decimal_text(n: u16) -> (r: String)
    ensures
        r@ == decimal(n as nat),
    decreases n,
{
    if n < 10 {
        digit_text(n).to_owned()
    } else {
        let mut r = decimal_text(n / 10);
        r.append(digit_text(n % 10));
        assert(r@ =~= decimal(n as nat));
        r
    }
}

/// Calls `std::str::from_utf8`: the text that `bytes` encode, or nothing when
/// they are not UTF-8.
#[verifier::external_body]
pub(crate) fn utf8_text(bytes: &[u8]) -> (r: Option<&str>)
    ensures
        match r {
            Some(t) => vstd::utf8::valid_utf8(bytes@) && t@ == vstd::utf8::decode_utf8(bytes@),
            None => !vstd::utf8::valid_utf8(bytes@),
        },
{
    std::str::from_utf8(bytes).ok()
}

// ---------------------------------------------------------------------------
// Laws
// ---------------------------------------------------------------------------

/// Lowering a text keeps its length, moves each letter from A to Z by 32 code
/// points, and leaves every other character as it is.
pub proof fn law_lowering_moves_capitals_only(s: Seq<char>)
    ensures
        lowered(s).len() == s.len(),
        forall|i: int|
            0 <= i < s.len() ==> (#[trigger] lowered(s)[i]) as int == if 65 <= s[i] as int
                && s[i] as int <= 90 {
                s[i] as int + 32
            } else {
                s[i] as int
            },
{
    assert forall|i: int| 0 <= i < s.len() implies (#[trigger] lowered(s)[i]) as int == if 65
        <= s[i] as int && s[i] as int <= 90 {
        s[i] as int + 32
    } else {
        s[i] as int
    } by {
        let c = s[i];
        if 'A' <= c <= 'Z' {
            assert(((c as u8) + 32) as int == c as int + 32);
        }
    }
}

/// There are twenty-five characters of white space.
pub proof fn law_white_space_is_a_fixed_set(c: char)
    ensures
        is_white_space(c) <==> seq![
            0x9int,
            0xa,
            0xb,
            0xc,
            0xd,
            0x20,
            0x85,
            0xa0,
            0x1680,
            0x2000,
            0x2001,
            0x2002,
            0x2003,
            0x2004,
            0x2005,
            0x2006,
            0x2007,
            0x2008,
            0x2009,
            0x200a,
            0x2028,
            0x2029,
            0x202f,
            0x205f,
            0x3000,
        ].contains(c as int),
{
    let all = seq![
        0x9int,
        0xa,
        0xb,
        0xc,
        0xd,
        0x20,
        0x85,
        0xa0,
        0x1680,
        0x2000,
        0x2001,
        0x2002,
        0x2003,
        0x2004,
        0x2005,
        0x2006,
        0x2007,
        0x2008,
        0x2009,
        0x200a,
        0x2028,
        0x2029,
        0x202f,
        0x205f,
        0x3000,
    ];
    assert(all[0] == 0x9 && all[1] == 0xa && all[2] == 0xb && all[3] == 0xc && all[4] == 0xd
        && all[5] == 0x20 && all[6] == 0x85 && all[7] == 0xa0 && all[8] == 0x1680 && all[9]
        == 0x2000 && all[10] == 0x2001 && all[11] == 0x2002 && all[12] == 0x2003 && all[13]
        == 0x2004 && all[14] == 0x2005 && all[15] == 0x2006 && all[16] == 0x2007 && all[17]
        == 0x2008 && all[18] == 0x2009 && all[19] == 0x200a && all[20] == 0x2028 && all[21]
        == 0x2029 && all[22] == 0x202f && all[23] == 0x205f && all[24] == 0x3000);
    if all.contains(c as int) {
        let i = choose|i: int| 0 <= i < all.len() && all[i] == c as int;
        assert(is_white_space(c));
    }
}

/// Trimming takes the white space from both ends of a text and nothing else.
pub proof fn law_trimming_takes_white_space_off(a: Seq<char>, t: Seq<char>, b: Seq<char>)
    requires
        forall|i: int| 0 <= i < a.len() ==> is_white_space(#[trigger] a[i]),
        forall|i: int| 0 <= i < b.len() ==> is_white_space(#[trigger] b[i]),
        t.len() > 0 ==> !is_white_space(t[0]) && !is_white_space(t.last()),
    ensures
        trimmed(a + t + b) == t,
    decreases a.len() + b.len(),
{
    let s = a + t + b;
    if a.len() > 0 {
        assert(s[0] == a[0]);
        let rest = a.drop_first();
        assert forall|i: int| 0 <= i < rest.len() implies is_white_space(#[trigger] rest[i]) by {
            assert(rest[i] == a[i + 1]);
        }
        law_trimming_takes_white_space_off(rest, t, b);
        assert(s.drop_first() =~= rest + t + b);
        assert(trim_start(s) == trim_start(s.drop_first()));
    } else if t.len() > 0 {
        assert(s =~= t + b);
        assert(s[0] == t[0]);
        assert(trim_start(s) == s);
        if b.len() > 0 {
            assert(s.last() == b.last());
            let rest = b.drop_last();
            assert forall|i: int| 0 <= i < rest.len() implies is_white_space(#[trigger] rest[i]) by {
                assert(rest[i] == b[i]);
            }
            assert(is_white_space(b[b.len() - 1]));
            law_trimming_takes_white_space_off(a, t, rest);
            assert(s.drop_last() =~= a + t + rest);
            assert((a + t + rest)[0] == t[0]);
            assert(trim_start(a + t + rest) == a + t + rest);
            assert(trim_end(s) == trim_end(s.drop_last()));
        } else {
            assert(s =~= t);
            assert(trim_end(s) == s);
        }
    } else if b.len() > 0 {
        assert(s =~= b);
        assert(s[0] == b[0]);
        let rest = b.drop_first();
        assert forall|i: int| 0 <= i < rest.len() implies is_white_space(#[trigger] rest[i]) by {
            assert(rest[i] == b[i + 1]);
        }
        law_trimming_takes_white_space_off(a, t, rest);
        assert(s.drop_first() =~= a + t + rest);
        assert(trim_start(s) == trim_start(s.drop_first()));
    } else {
        assert(s =~= t);
        assert(trim_start(s) == s);
        assert(trim_end(s) == s);
    }
}

/// A search gives the first place where the pattern stands, and gives none only
/// if it stands nowhere.
pub proof fn law_search_finds_the_first_place(s: Seq<char>, pat: Seq<char>)
    ensures
        match find(s, pat) {
            Some(i) => {
                &&& 0 <= i
                &&& i + pat.len() <= s.len()
                &&& s.subrange(i, i + pat.len()) == pat
                &&& forall|j: int| 0 <= j < i ==> #[trigger] s.subrange(j, j + pat.len()) != pat
            },
            None => forall|j: int|
                0 <= j && j + pat.len() <= s.len() ==> #[trigger] s.subrange(j, j + pat.len())
                    != pat,
        },
{
    lemma_find(s, pat);
    match find(s, pat) {
        Some(i) => {
            assert forall|j: int| 0 <= j < i implies #[trigger] s.subrange(j, j + pat.len())
                != pat by {
                assert(!occurs_at(s, pat, j));
            }
        },
        None => {
            assert forall|j: int|
                0 <= j && j + pat.len() <= s.len() implies #[trigger] s.subrange(j, j + pat.len())
                != pat by {
                assert(!occurs_at(s, pat, j));
            }
        },
    }
}

/// What stands before a character is all that precedes its first place, and the
/// whole text where it has none.
pub proof fn law_before_stops_at_the_first_place(a: Seq<char>, c: char, rest: Seq<char>)
    requires
        !a.contains(c),
    ensures
        before(a + seq![c] + rest, c) == a,
        before(a, c) == a,
{
    let s = a + seq![c] + rest;
    let n = a.len() as int;
    assert(s.subrange(n, n + 1) =~= seq![c]);
    assert forall|j: int| 0 <= j < n implies !occurs_at(s, seq![c], j) by {
        assert(s.subrange(j, j + 1)[0] == a[j]);
        assert(a.contains(a[j]));
    }
    lemma_find_is(s, seq![c], n);
    assert(s.take(n) =~= a);
    assert forall|j: int| !occurs_at(a, seq![c], j) by {
        if occurs_at(a, seq![c], j) {
            assert(a.subrange(j, j + 1)[0] == a[j]);
            assert(a.contains(a[j]));
        }
    }
    lemma_find_none(a, seq![c]);
}

/// The last place of a character is the one behind which it does not stand.
pub proof fn law_search_finds_the_last_place(a: Seq<char>, c: char, rest: Seq<char>)
    requires
        !rest.contains(c),
    ensures
        find_last(a + seq![c] + rest, c) == Some(a.len() as int),
        find_last(rest, c) is None,
{
    let s = a + seq![c] + rest;
    lemma_find_last(s, c);
    lemma_find_last(rest, c);
    assert(s[a.len() as int] == c);
    assert forall|j: int| a.len() < j < s.len() implies s[j] != c by {
        assert(s[j] == rest[j - a.len() - 1]);
        assert(rest.contains(rest[j - a.len() - 1]));
    }
    if let Some(i) = find_last(rest, c) {
        assert(rest.contains(rest[i]));
    }
}

/// The number that decimal digits stand for.
pub open spec fn number_of(digits: Seq<char>) -> int
    decreases digits.len(),
{
    if digits.len() == 0 {
        0
    } else {
        10 * number_of(digits.drop_last()) + (digits.last() as int - 48)
    }
}

/// A decimal number is made of the digits from 0 to 9, does not start with a
/// zero unless it is one, and stands for the number that it was made of.
pub proof fn law_decimals_stand_for_their_number(n: nat)
    ensures
        number_of(decimal(n)) == n,
        decimal(n).len() > 0,
        decimal(n)[0] == '0' ==> n == 0 && decimal(n).len() == 1,
        forall|i: int| 0 <= i < decimal(n).len() ==> '0' <= #[trigger] decimal(n)[i] <= '9',
    decreases n,
{
    if n < 10 {
        assert(decimal(n).drop_last() =~= Seq::empty());
        assert(number_of(decimal(n).drop_last()) == 0);
    } else {
        law_decimals_stand_for_their_number(n / 10);
        assert(decimal(n).drop_last() =~= decimal(n / 10));
        assert(decimal(n)[0] == decimal(n / 10)[0]);
    }
}

} // verus!
