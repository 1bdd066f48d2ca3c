//! Character-level scanning used by every stage of a diagnostic line:
//! colons, runs of decimal digits, whitespace and the `s#`/`#s` markers.
use vstd::prelude::*;

verus! {

/// An ASCII decimal digit.
pub open spec fn is_digit(c: char) -> bool {
    '0' <= c && c <= '9'
}

/// The value of one decimal digit.
pub open spec fn digit_value(c: char) -> nat {
    ((c as u32) - ('0' as u32)) as nat
}

/// The value of a run of decimal digits, most significant first.
pub open spec fn digits_value(s: Seq<char>) -> nat
    decreases s.len(),
{
    if s.len() == 0 {
        0
    } else {
        digits_value(s.drop_last()) * 10 + digit_value(s.last())
    }
}

/// A character of the Unicode `White_Space` property.
pub open spec fn is_space(c: char) -> bool {
    ('\u{9}' <= c && c <= '\u{d}') || c == ' ' || c == '\u{85}' || c == '\u{a0}' || c
        == '\u{1680}' || ('\u{2000}' <= c && c <= '\u{200a}') || c == '\u{2028}' || c
        == '\u{2029}' || c == '\u{202f}' || c == '\u{205f}' || c == '\u{3000}'
}

/// The first colon of `t` at or after `from`.
pub open spec fn first_colon(t: Seq<char>, from: int) -> Option<int>
    decreases t.len() - from,
{
    if from < 0 || from >= t.len() {
        None
    } else if t[from] == ':' {
        Some(from)
    } else {
        first_colon(t, from + 1)
    }
}

/// Where the run of digits that starts at `from` ends.
pub open spec fn digit_run_end(t: Seq<char>, from: int) -> int
    decreases t.len() - from,
{
    if from < 0 || from >= t.len() || !is_digit(t[from]) {
        from
    } else {
        digit_run_end(t, from + 1)
    }
}

/// Where the run of whitespace that starts at `from` ends.
pub open spec fn space_run_end(t: Seq<char>, from: int) -> int
    decreases t.len() - from,
{
    if from < 0 || from >= t.len() || !is_space(t[from]) {
        from
    } else {
        space_run_end(t, from + 1)
    }
}

/// An opening marker `s#` at `i`.
pub open spec fn opens_at(t: Seq<char>, i: int) -> bool {
    0 <= i && i + 1 < t.len() && t[i] == 's' && t[i + 1] == '#'
}

/// A closing marker `#s` at `i`.
pub open spec fn closes_at(t: Seq<char>, i: int) -> bool {
    0 <= i && i + 1 < t.len() && t[i] == '#' && t[i + 1] == 's'
}

/// The first closing marker at or after `from`.
pub open spec fn first_close(t: Seq<char>, from: int) -> Option<int>
    decreases t.len() - from,
{
    if from < 0 || from >= t.len() {
        None
    } else if closes_at(t, from) {
        Some(from)
    } else {
        first_close(t, from + 1)
    }
}

/// The first opening marker at or after `from` that a closing marker follows
/// with at least one character between them.
pub open spec fn first_block(t: Seq<char>, from: int) -> Option<int>
    decreases t.len() - from,
{
    if from < 0 || from >= t.len() {
        None
    } else if opens_at(t, from) && first_close(t, from + 3) is Some {
        Some(from)
    } else {
        first_block(t, from + 1)
    }
}

/// The text between the first opening marker and the nearest closing marker
/// after it; the text between them is never empty.
pub open spec fn delimited_body(t: Seq<char>) -> Option<Seq<char>> {
    match first_block(t, 0) {
        Some(s) => Some(t.subrange(s + 2, first_close(t, s + 3)->0)),
        None => None,
    }
}

/// The characters of `s`, in order.
pub fn chars_of(s: &str) -> (r: Vec<char>)
    ensures
        r@ == s@,
{
    let n = s.unicode_len();
    let mut v: Vec<char> = Vec::new();
    let mut i: usize = 0;
    while i < n
        invariant
            n == s@.len(),
            i <= n,
            v@ == s@.subrange(0, i as int),
        decreases n - i,
    {
        v.push(s.get_char(i));
        i = i + 1;
        assert(v@ =~= s@.subrange(0, i as int));
    }
    assert(v@ =~= s@);
    v
}

/// The characters of `s` from `from` to `to`, as a `String`.
pub fn text_between(s: &str, from: usize, to: usize) -> (r: String)
    requires
        from <= to <= s@.len(),
    ensures
        r@ == s@.subrange(from as int, to as int),
{
    s.substring_char(from, to).to_string()
}

/// Index of the first colon of `t` at or after `from`.
pub fn find_colon(t: &Vec<char>, from: usize) -> (r: Option<usize>)
    ensures
        match r {
            Some(i) => first_colon(t@, from as int) == Some(i as int),
            None => first_colon(t@, from as int) is None,
        },
{
    let mut i: usize = from;
    while i < t.len()
        invariant
            from <= i,
            first_colon(t@, from as int) == first_colon(t@, i as int),
        decreases t@.len() - i,
    {
        if t[i] == ':' {
            return Some(i);
        }
        i = i + 1;
    }
    None
}

/// Index just past the run of digits of `t` that starts at `from`.
pub fn digit_end(t: &Vec<char>, from: usize) -> (r: usize)
    requires
        from <= t@.len(),
    ensures
        r as int == digit_run_end(t@, from as int),
        from <= r <= t@.len(),
        forall|k: int| from <= k < r ==> is_digit(#[trigger] t@[k]),
{
    let mut i: usize = from;
    while i < t.len() && '0' <= t[i] && t[i] <= '9'
        invariant
            from <= i <= t@.len(),
            digit_run_end(t@, from as int) == digit_run_end(t@, i as int),
            forall|k: int| from <= k < i ==> is_digit(#[trigger] t@[k]),
        decreases t@.len() - i,
    {
        i = i + 1;
    }
    i
}

/// Index just past the run of whitespace of `t` that starts at `from`.
pub fn space_end(t: &Vec<char>, from: usize) -> (r: usize)
    requires
        from <= t@.len(),
    ensures
        r as int == space_run_end(t@, from as int),
        from <= r <= t@.len(),
{
    let mut i: usize = from;
    while i < t.len() && is_space_char(t[i])
        invariant
            from <= i <= t@.len(),
            space_run_end(t@, from as int) == space_run_end(t@, i as int),
        decreases t@.len() - i,
    {
        i = i + 1;
    }
    i
}

/// Whether `c` is whitespace.
pub fn is_space_char(c: char) -> (r: bool)
    ensures
        r == is_space(c),
{
    ('\u{9}' <= c && c <= '\u{d}') || c == ' ' || c == '\u{85}' || c == '\u{a0}' || c
        == '\u{1680}' || ('\u{2000}' <= c && c <= '\u{200a}') || c == '\u{2028}' || c
        == '\u{2029}' || c == '\u{202f}' || c == '\u{205f}' || c == '\u{3000}'
}

/// Growing a run of digits at its end never lowers its value.
pub proof fn lemma_digits_value_prefix(s: Seq<char>, k: int)
    requires
        0 <= k <= s.len(),
    ensures
        digits_value(s.subrange(0, k)) <= digits_value(s),
    decreases s.len(),
{
    if k < s.len() {
        assert(s.subrange(0, k) =~= s.drop_last().subrange(0, k));
        lemma_digits_value_prefix(s.drop_last(), k);
    } else {
        assert(s.subrange(0, k) =~= s);
    }
}

/// The value of the digits of `t` between `from` and `to`, or `None` where it
/// does not fit in a `usize`.
pub fn parse_digits(t: &Vec<char>, from: usize, to: usize) -> (r: Option<usize>)
    requires
        from <= to <= t@.len(),
        forall|k: int| from <= k < to ==> is_digit(#[trigger] t@[k]),
    ensures
        match r {
            Some(v) => v as nat == digits_value(t@.subrange(from as int, to as int)),
            None => digits_value(t@.subrange(from as int, to as int)) > usize::MAX,
        },
{
    let mut acc: usize = 0;
    let mut i: usize = from;
    assert(t@.subrange(from as int, from as int).len() == 0);
    while i < to
        invariant
            from <= i <= to <= t@.len(),
            forall|k: int| from <= k < to ==> is_digit(#[trigger] t@[k]),
            acc as nat == digits_value(t@.subrange(from as int, i as int)),
        decreases to - i,
    {
        let ghost done = t@.subrange(from as int, i as int);
        let ghost next = t@.subrange(from as int, i + 1);
        assert(next.drop_last() =~= done);
        assert(is_digit(t@[i as int]));
        let d: usize = (t[i] as u32 - '0' as u32) as usize;
        assert(digits_value(next) == acc * 10 + d);
        if acc > (usize::MAX - d) / 10 {
            assert(acc * 10 + d > usize::MAX);
            proof {
                let whole = t@.subrange(from as int, to as int);
                assert(whole.subrange(0, i + 1 - from) =~= next);
                lemma_digits_value_prefix(whole, i + 1 - from);
            }
            return None;
        }
        acc = acc * 10 + d;
        i = i + 1;
    }
    Some(acc)
}

/// Index of the first closing marker of `t` at or after `from`.
pub fn find_close(t: &Vec<char>, from: usize) -> (r: Option<usize>)
    ensures
        match r {
            Some(i) => first_close(t@, from as int) == Some(i as int),
            None => first_close(t@, from as int) is None,
        },
{
    let mut i: usize = from;
    while i < t.len()
        invariant
            from <= i,
            first_close(t@, from as int) == first_close(t@, i as int),
        decreases t@.len() - i,
    {
        if i + 1 < t.len() && t[i] == '#' && t[i + 1] == 's' {
            return Some(i);
        }
        i = i + 1;
    }
    None
}

/// The text between the first `s#` that a `#s` follows and the nearest such
/// `#s`, or `None` where the line holds no such pair around a non-empty text.
pub fn payload_body(haystack: &str) -> (r: Option<String>)
    ensures
        match r {
            Some(b) => delimited_body(haystack@) == Some(b@),
            None => delimited_body(haystack@) is None,
        },
{
    let t = chars_of(haystack);
    let mut s: usize = 0;
    while s < t.len()
        invariant
            t@ == haystack@,
            first_block(t@, 0) == first_block(t@, s as int),
        decreases t@.len() - s,
    {
        if t.len() - s > 3 && t[s] == 's' && t[s + 1] == '#' {
            if let Some(j) = find_close(&t, s + 3) {
                assert(s + 2 <= j < t@.len()) by {
                    lemma_first_close_range(t@, s + 3);
                }
                return Some(text_between(haystack, s + 2, j));
            }
        }
        s = s + 1;
    }
    None
}

/// A closing marker found at or after `from` lies there, inside the text.
pub proof fn lemma_first_close_range(t: Seq<char>, from: int)
    requires
        first_close(t, from) is Some,
    ensures
        from <= first_close(t, from)->0,
        closes_at(t, first_close(t, from)->0),
    decreases t.len() - from,
{
    if !closes_at(t, from) {
        lemma_first_close_range(t, from + 1);
    }
}

/// The line and column block `digits:digits:` starts at `s`, each run of
/// digits taken whole.
pub open spec fn position_at(t: Seq<char>, s: int) -> bool {
    let a = digit_run_end(t, s);
    let b = digit_run_end(t, a + 1);
    0 <= s && s < a && a < t.len() && t[a] == ':' && a + 1 < b && b < t.len() && t[b] == ':'
}

/// The first place at or after `from` where a line and column block starts.
pub open spec fn position_start(t: Seq<char>, from: int) -> Option<int>
    decreases t.len() - from,
{
    if from < 0 || from >= t.len() {
        None
    } else if position_at(t, from) {
        Some(from)
    } else {
        position_start(t, from + 1)
    }
}

/// A colon found at or after `from` lies there, inside the text.
pub proof fn lemma_first_colon_range(t: Seq<char>, from: int)
    requires
        first_colon(t, from) is Some,
    ensures
        from <= first_colon(t, from)->0 < t.len(),
        t[first_colon(t, from)->0] == ':',
    decreases t.len() - from,
{
    if t[from] != ':' {
        lemma_first_colon_range(t, from + 1);
    }
}

} // verus!
