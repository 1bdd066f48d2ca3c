//! Laws of reading diagnostic lines, stated over the readings that
//! `RegexParse::parse_spec` gives.
use vstd::prelude::*;

use crate::json::json_string_member_of;
use crate::scan::{
    lemma_first_close_range,
    closes_at, delimited_body, digit_run_end, digits_value, first_block, first_close,
    first_colon, is_digit, is_space, opens_at, position_at, position_start, space_run_end,
};
use crate::{
    CodeFragmentModel, LogFile, LogFileModel, Message, MessageNames, MyWarning,
    MyWarningModel, RegexParse, TaskMessage, view_opt,
};

verus! {

/// `path:line:column:rest`.
pub open spec fn diagnostic_line(
    path: Seq<char>,
    line: Seq<char>,
    column: Seq<char>,
    rest: Seq<char>,
) -> Seq<char> {
    path + seq![':'] + line + seq![':'] + column + seq![':'] + rest
}

/// A path as a line can hold it: not empty, and without a colon.
pub open spec fn plain_path(path: Seq<char>) -> bool {
    path.len() > 0 && forall|i: int| 0 <= i < path.len() ==> path[i] != ':'
}

/// Decimal digits whose value fits in a `usize`.
pub open spec fn usize_digits(s: Seq<char>) -> bool {
    s.len() > 0 && (forall|i: int| 0 <= i < s.len() ==> is_digit(#[trigger] s[i]))
        && digits_value(s) <= usize::MAX
}

/// Whitespace only.
pub open spec fn all_space(s: Seq<char>) -> bool {
    forall|i: int| 0 <= i < s.len() ==> is_space(#[trigger] s[i])
}

/// `keyword:` of a diagnostic class.
pub open spec fn keyword_colon(name: MessageNames) -> Seq<char> {
    name.keyword() + seq![':']
}

/// `s#body#s`.
pub open spec fn delimited(body: Seq<char>) -> Seq<char> {
    seq!['s', '#'] + body + seq!['#', 's']
}

/// No `#s` stands in `s`.
pub open spec fn no_close_marker(s: Seq<char>) -> bool {
    forall|i: int| 0 <= i < s.len() - 1 ==> !(s[i] == '#' && #[trigger] s[i + 1] == 's')
}

proof fn lemma_colon_skip(t: Seq<char>, from: int, to: int)
    requires
        0 <= from <= to <= t.len(),
        forall|i: int| from <= i < to ==> t[i] != ':',
    ensures
        first_colon(t, from) == first_colon(t, to),
    decreases to - from,
{
    if from < to {
        lemma_colon_skip(t, from + 1, to);
    }
}

proof fn lemma_digit_skip(t: Seq<char>, from: int, to: int)
    requires
        0 <= from <= to <= t.len(),
        forall|i: int| from <= i < to ==> is_digit(#[trigger] t[i]),
    ensures
        digit_run_end(t, from) == digit_run_end(t, to),
    decreases to - from,
{
    if from < to {
        lemma_digit_skip(t, from + 1, to);
    }
}

proof fn lemma_space_skip(t: Seq<char>, from: int, to: int)
    requires
        0 <= from <= to <= t.len(),
        forall|i: int| from <= i < to ==> is_space(#[trigger] t[i]),
    ensures
        space_run_end(t, from) == space_run_end(t, to),
    decreases to - from,
{
    if from < to {
        lemma_space_skip(t, from + 1, to);
    }
}

proof fn lemma_close_skip(t: Seq<char>, from: int, to: int)
    requires
        0 <= from <= to <= t.len(),
        forall|i: int| from <= i < to ==> !closes_at(t, i),
    ensures
        first_close(t, from) == first_close(t, to),
    decreases to - from,
{
    if from < to {
        lemma_close_skip(t, from + 1, to);
    }
}

proof fn lemma_block_skip(t: Seq<char>, from: int, to: int)
    requires
        0 <= from <= to <= t.len(),
        forall|i: int| from <= i < to ==> !opens_at(t, i),
    ensures
        first_block(t, from) == first_block(t, to),
    decreases to - from,
{
    if from < to {
        lemma_block_skip(t, from + 1, to);
    }
}

proof fn lemma_no_close_marker(t: Seq<char>, from: int)
    requires
        forall|i: int| !closes_at(t, i),
    ensures
        first_close(t, from) is None,
    decreases t.len() - from,
{
    if 0 <= from < t.len() {
        lemma_no_close_marker(t, from + 1);
    }
}

proof fn lemma_no_close(t: Seq<char>, from: int)
    requires
        forall|i: int| !closes_at(t, i),
    ensures
        first_block(t, from) is None,
    decreases t.len() - from,
{
    if 0 <= from < t.len() {
        lemma_no_close_marker(t, from + 3);
        lemma_no_close(t, from + 1);
    }
}

proof fn lemma_no_open(t: Seq<char>, from: int)
    requires
        forall|i: int| !opens_at(t, i),
    ensures
        first_block(t, from) is None,
    decreases t.len() - from,
{
    if 0 <= from < t.len() {
        lemma_no_open(t, from + 1);
    }
}

/// A line without a colon reads as nothing at all.
pub proof fn lemma_no_colon_no_line<T: TaskMessage>(text: Seq<char>)
    requires
        forall|i: int| 0 <= i < text.len() ==> text[i] != ':',
    ensures
        LogFile::<T>::parse_spec(text) is None,
{
    if text.len() >= 1 {
        lemma_colon_skip(text, 1, text.len() as int);
    }
}

/// In `path:line:column:rest`, with a path without colons and two numbers
/// that fit in a `usize`, the path and the numbers are read, and `rest` is
/// read as the message.
pub proof fn lemma_position_read<T: TaskMessage>(
    path: Seq<char>,
    line: Seq<char>,
    column: Seq<char>,
    rest: Seq<char>,
)
    requires
        plain_path(path),
        usize_digits(line),
        usize_digits(column),
    ensures
        LogFile::<T>::parse_spec(diagnostic_line(path, line, column, rest)) == Some(
            LogFileModel {
                path,
                code_fragment: Some(
                    CodeFragmentModel {
                        line: digits_value(line),
                        column: digits_value(column),
                        task_info: Message::<T>::parse_spec(rest),
                    },
                ),
            },
        ),
{
    let t = diagnostic_line(path, line, column, rest);
    let p = path.len() as int;
    let u = line + seq![':'] + column + seq![':'] + rest;
    let a = line.len() as int;
    let b = a + 1 + column.len();
    assert(t[p] == ':');
    assert forall|i: int| 1 <= i < p implies t[i] != ':' by {
        assert(t[i] == path[i]);
    }
    lemma_colon_skip(t, 1, p);
    assert(t.subrange(0, p) =~= path);
    assert(t.subrange(p + 1, t.len() as int) =~= u);
    assert forall|i: int| 0 <= i < a implies is_digit(#[trigger] u[i]) by {
        assert(u[i] == line[i]);
    }
    lemma_digit_skip(u, 0, a);
    assert(u[a] == ':');
    assert forall|i: int| a + 1 <= i < b implies is_digit(#[trigger] u[i]) by {
        assert(u[i] == column[i - a - 1]);
    }
    lemma_digit_skip(u, a + 1, b);
    assert(u[b] == ':');
    assert(digit_run_end(u, 0) == a);
    assert(digit_run_end(u, a + 1) == b);
    assert(position_at(u, 0));
    assert(position_start(u, 0) == Some(0int));
    assert(u.subrange(0, a) =~= line);
    assert(u.subrange(a + 1, b) =~= column);
    assert(u.subrange(b + 1, u.len() as int) =~= rest);
}

/// Whitespace, then a class's keyword and its colon: the rest is read as
/// that class's payload.
pub proof fn lemma_keyword_read<T: TaskMessage>(space: Seq<char>, tail: Seq<char>)
    requires
        all_space(space),
    ensures
        Message::<T>::parse_spec(space + keyword_colon(MessageNames::Warning) + tail) == match T::parse_spec(tail) {
            Some(v) => Some(Message::Warning(v)),
            None => None,
        },
{
    let rest = space + keyword_colon(MessageNames::Warning) + tail;
    let w = space.len() as int;
    lemma_space_skip(rest, 0, w);
    assert(rest[w] == 'w');
    assert(space_run_end(rest, 0) == w);
    assert forall|i: int| w <= i < w + 7 implies rest[i] != ':' by {
        assert(rest[i] == MessageNames::Warning.keyword()[i - w]);
    }
    lemma_colon_skip(rest, w, w + 7);
    assert(rest[w + 7] == ':');
    assert(rest.subrange(w, w + 7) =~= MessageNames::Warning.keyword());
    assert(rest.subrange(w + 8, rest.len() as int) =~= tail);
}

/// Whitespace, then a keyword that names no class (the empty one too): no
/// message is read, whatever follows.
pub proof fn lemma_unknown_keyword<T: TaskMessage>(
    space: Seq<char>,
    word: Seq<char>,
    tail: Seq<char>,
)
    requires
        all_space(space),
        forall|i: int| 0 <= i < word.len() ==> word[i] != ':',
        word.len() > 0 ==> !is_space(word[0]),
        word != MessageNames::Warning.keyword(),
    ensures
        Message::<T>::parse_spec(space + word + seq![':'] + tail) is None,
{
    let rest = space + word + seq![':'] + tail;
    let w = space.len() as int;
    let c = w + word.len();
    lemma_space_skip(rest, 0, w);
    if word.len() > 0 {
        assert(rest[w] == word[0]);
    }
    assert(!is_space(rest[w]));
    assert(space_run_end(rest, 0) == w);
    assert forall|i: int| w <= i < c implies rest[i] != ':' by {
        assert(rest[i] == word[i - w]);
    }
    lemma_colon_skip(rest, w, c);
    assert(rest[c] == ':');
    assert(rest.subrange(w, c) =~= word);
}

/// A line whose keyword names no class reads its path and position, and no
/// message.
pub proof fn lemma_unknown_keyword_line<T: TaskMessage>(
    path: Seq<char>,
    line: Seq<char>,
    column: Seq<char>,
    space: Seq<char>,
    word: Seq<char>,
    tail: Seq<char>,
)
    requires
        plain_path(path),
        usize_digits(line),
        usize_digits(column),
        all_space(space),
        forall|i: int| 0 <= i < word.len() ==> word[i] != ':',
        word.len() > 0 ==> !is_space(word[0]),
        word != MessageNames::Warning.keyword(),
    ensures
        LogFile::<T>::parse_spec(
            diagnostic_line(path, line, column, space + word + seq![':'] + tail),
        ) == Some(
            LogFileModel {
                path,
                code_fragment: Some(
                    CodeFragmentModel::<T::V> {
                        line: digits_value(line),
                        column: digits_value(column),
                        task_info: None,
                    },
                ),
            },
        ),
{
    lemma_position_read::<T>(path, line, column, space + word + seq![':'] + tail);
    lemma_unknown_keyword::<T>(space, word, tail);
}

/// A warning whose payload lacks the `s#` marker or the `#s` marker reads its
/// path and position, and no message.
pub proof fn lemma_missing_markers(
    path: Seq<char>,
    line: Seq<char>,
    column: Seq<char>,
    space: Seq<char>,
    tail: Seq<char>,
)
    requires
        plain_path(path),
        usize_digits(line),
        usize_digits(column),
        all_space(space),
        (forall|i: int| !opens_at(tail, i)) || (forall|i: int| !closes_at(tail, i)),
    ensures
        LogFile::<MyWarning>::parse_spec(
            diagnostic_line(path, line, column, space + keyword_colon(MessageNames::Warning) + tail),
        ) == Some(
            LogFileModel {
                path,
                code_fragment: Some(
                    CodeFragmentModel::<MyWarningModel> {
                        line: digits_value(line),
                        column: digits_value(column),
                        task_info: None,
                    },
                ),
            },
        ),
{
    lemma_position_read::<MyWarning>(
        path,
        line,
        column,
        space + keyword_colon(MessageNames::Warning) + tail,
    );
    lemma_keyword_read::<MyWarning>(space, tail);
    if forall|i: int| !opens_at(tail, i) {
        lemma_no_open(tail, 0);
    } else {
        lemma_no_close(tail, 0);
    }
}

/// A warning whose payload is framed, but whose JSON text lacks a string
/// `summary` or `queue` (or is no JSON object at all), reads its path and
/// position, and no message: nothing of the payload is kept.
pub proof fn lemma_missing_member(
    path: Seq<char>,
    line: Seq<char>,
    column: Seq<char>,
    space: Seq<char>,
    tail: Seq<char>,
)
    requires
        plain_path(path),
        usize_digits(line),
        usize_digits(column),
        all_space(space),
        delimited_body(tail) is Some,
        json_string_member_of(delimited_body(tail)->0, "summary"@) is None
            || json_string_member_of(delimited_body(tail)->0, "queue"@) is None,
    ensures
        LogFile::<MyWarning>::parse_spec(
            diagnostic_line(path, line, column, space + keyword_colon(MessageNames::Warning) + tail),
        ) == Some(
            LogFileModel {
                path,
                code_fragment: Some(
                    CodeFragmentModel::<MyWarningModel> {
                        line: digits_value(line),
                        column: digits_value(column),
                        task_info: None,
                    },
                ),
            },
        ),
{
    lemma_position_read::<MyWarning>(
        path,
        line,
        column,
        space + keyword_colon(MessageNames::Warning) + tail,
    );
    lemma_keyword_read::<MyWarning>(space, tail);
}

/// `space s#json#s`, with no `#s` inside `json`, frames exactly `json`.
pub proof fn lemma_framed_body(space: Seq<char>, json: Seq<char>)
    requires
        all_space(space),
        json.len() > 0,
        no_close_marker(json),
    ensures
        delimited_body(space + delimited(json)) == Some(json),
{
    let t = space + delimited(json);
    let w = space.len() as int;
    let e = w + 2 + json.len();
    assert forall|i: int| 0 <= i < w implies !opens_at(t, i) by {
        assert(t[i] == space[i]);
    }
    lemma_block_skip(t, 0, w);
    assert forall|i: int| w + 3 <= i < e implies !closes_at(t, i) by {
        let k = i - w - 2;
        assert(t[i] == json[k]);
        if i + 1 < e {
            assert(t[i + 1] == json[k + 1]);
            assert(!(json[k] == '#' && json[k + 1] == 's'));
        } else {
            assert(t[i + 1] == '#');
        }
    }
    lemma_close_skip(t, w + 3, e);
    assert(closes_at(t, e));
    assert(first_close(t, w + 3) == Some(e));
    assert(opens_at(t, w));
    assert(first_block(t, w) == Some(w));
    assert(t.subrange(w + 2, e) =~= json);
}

/// `path:line:column:` then a warning with its JSON text framed by `s#` and
/// `#s`, whitespace or none before the keyword and before the frame: the path,
/// the numbers and the two string members of the JSON text are read.
pub proof fn lemma_well_formed_warning(
    path: Seq<char>,
    line: Seq<char>,
    column: Seq<char>,
    space_before: Seq<char>,
    space_after: Seq<char>,
    json: Seq<char>,
    summary: Seq<char>,
    queue: Seq<char>,
)
    requires
        plain_path(path),
        usize_digits(line),
        usize_digits(column),
        all_space(space_before),
        all_space(space_after),
        json.len() > 0,
        no_close_marker(json),
        json_string_member_of(json, "summary"@) == Some(summary),
        json_string_member_of(json, "queue"@) == Some(queue),
    ensures
        LogFile::<MyWarning>::parse_spec(
            diagnostic_line(
                path,
                line,
                column,
                space_before + keyword_colon(MessageNames::Warning) + (space_after + delimited(
                    json,
                )),
            ),
        ) == Some(
            LogFileModel {
                path,
                code_fragment: Some(
                    CodeFragmentModel {
                        line: digits_value(line),
                        column: digits_value(column),
                        task_info: Some(Message::Warning(MyWarningModel { summary, queue })),
                    },
                ),
            },
        ),
{
    let tail = space_after + delimited(json);
    lemma_position_read::<MyWarning>(
        path,
        line,
        column,
        space_before + keyword_colon(MessageNames::Warning) + tail,
    );
    lemma_keyword_read::<MyWarning>(space_before, tail);
    lemma_framed_body(space_after, json);
}

proof fn lemma_close_shift(w: Seq<char>, x: Seq<char>, k: int)
    requires
        0 <= k,
    ensures
        first_close(w + x, w.len() + k) == match first_close(x, k) {
            Some(j) => Some(j + w.len()),
            None => None,
        },
    decreases x.len() - k,
{
    let t = w + x;
    let n = w.len() as int;
    if k < x.len() {
        assert(t[n + k] == x[k]);
        if k + 1 < x.len() {
            assert(t[n + k + 1] == x[k + 1]);
        }
        assert(closes_at(t, n + k) == closes_at(x, k));
        lemma_close_shift(w, x, k + 1);
    }
}

proof fn lemma_block_shift(w: Seq<char>, x: Seq<char>, k: int)
    requires
        0 <= k,
    ensures
        first_block(w + x, w.len() + k) == match first_block(x, k) {
            Some(j) => Some(j + w.len()),
            None => None,
        },
    decreases x.len() - k,
{
    let t = w + x;
    let n = w.len() as int;
    if k < x.len() {
        assert(t[n + k] == x[k]);
        if k + 1 < x.len() {
            assert(t[n + k + 1] == x[k + 1]);
        }
        assert(opens_at(t, n + k) == opens_at(x, k));
        lemma_close_shift(w, x, k + 3);
        lemma_block_shift(w, x, k + 1);
    }
}

proof fn lemma_first_block_range(t: Seq<char>, from: int)
    requires
        0 <= from,
        first_block(t, from) is Some,
    ensures
        from <= first_block(t, from)->0,
        opens_at(t, first_block(t, from)->0),
        first_close(t, first_block(t, from)->0 + 3) is Some,
    decreases t.len() - from,
{
    if !(opens_at(t, from) && first_close(t, from + 3) is Some) {
        lemma_first_block_range(t, from + 1);
    }
}

/// Whitespace before a payload never changes what the payload reads as.
pub proof fn lemma_space_before_payload(space: Seq<char>, tail: Seq<char>)
    requires
        all_space(space),
    ensures
        delimited_body(space + tail) == delimited_body(tail),
        MyWarning::parse_spec(space + tail) == MyWarning::parse_spec(tail),
{
    let t = space + tail;
    let n = space.len() as int;
    assert forall|i: int| 0 <= i < n implies !opens_at(t, i) by {
        assert(t[i] == space[i]);
    }
    lemma_block_skip(t, 0, n);
    lemma_block_shift(space, tail, 0);
    if let Some(s) = first_block(tail, 0) {
        lemma_first_block_range(tail, 0);
        lemma_first_close_range(tail, s + 3);
        lemma_close_shift(space, tail, s + 3);
        let e = first_close(tail, s + 3)->0;
        assert(t.subrange(n + s + 2, n + e) =~= tail.subrange(s + 2, e));
    }
}

/// Whitespace before the keyword of a warning, and between its colon and
/// the payload, never changes what a line reads as: `path:line:column:`
/// then spaced text reads as the same text with no whitespace there.
pub proof fn lemma_spacing_optional(
    path: Seq<char>,
    line: Seq<char>,
    column: Seq<char>,
    space_before: Seq<char>,
    space_after: Seq<char>,
    payload: Seq<char>,
)
    requires
        plain_path(path),
        usize_digits(line),
        usize_digits(column),
        all_space(space_before),
        all_space(space_after),
    ensures
        LogFile::<MyWarning>::parse_spec(
            diagnostic_line(
                path,
                line,
                column,
                space_before + keyword_colon(MessageNames::Warning) + (space_after + payload),
            ),
        ) == LogFile::<MyWarning>::parse_spec(
            diagnostic_line(path, line, column, keyword_colon(MessageNames::Warning) + payload),
        ),
{
    let spaced = space_before + keyword_colon(MessageNames::Warning) + (space_after + payload);
    let tight = keyword_colon(MessageNames::Warning) + payload;
    lemma_keyword_read::<MyWarning>(space_before, space_after + payload);
    assert(Seq::<char>::empty() + keyword_colon(MessageNames::Warning) + payload =~= tight);
    lemma_keyword_read::<MyWarning>(Seq::empty(), payload);
    lemma_space_before_payload(space_after, payload);
    assert(Message::<MyWarning>::parse_spec(spaced) == Message::<MyWarning>::parse_spec(tight));
    lemma_position_read::<MyWarning>(path, line, column, spaced);
    lemma_position_read::<MyWarning>(path, line, column, tight);
}

/// Reading a line twice gives the same reading.
pub proof fn lemma_read_twice<T: TaskMessage>(
    text: Seq<char>,
    first: Option<LogFile<T>>,
    second: Option<LogFile<T>>,
)
    requires
        view_opt(first) == LogFile::<T>::parse_spec(text),
        view_opt(second) == LogFile::<T>::parse_spec(text),
    ensures
        view_opt(first) == view_opt(second),
{
}

} // verus!
