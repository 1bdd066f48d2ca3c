//! Reading task requests out of diagnostic lines such as
//! `path/to/file.log:123:456: warning: s#{"queue": "Q", "summary": "S"}#s`.
//!
//! A line is read in four nested stages: the path up to the first colon, a
//! `line:column:` block, a diagnostic keyword, and a payload between `s#` and
//! `#s`. Each stage may fail on its own without undoing the stages before it.
use vstd::prelude::*;

pub mod json;
pub mod laws;
pub mod scan;

use crate::json::{json_string_member, json_string_member_of};
use crate::scan::{
    chars_of, delimited_body, digit_end, digit_run_end, digits_value, find_colon,
    first_colon, lemma_first_colon_range, parse_digits, payload_body,
    position_at, position_start, space_end, space_run_end,
};

verus! {

/// What a value of an optional type looks like.
pub open spec fn view_opt<T: View>(o: Option<T>) -> Option<T::V> {
    match o {
        Some(v) => Some(v@),
        None => None,
    }
}

/// A type read from a piece of text, where the text may hold no such value.
pub trait RegexParse: Sized + View {
    /// The value that `text` holds, or `None`.
    spec fn parse_spec(text: Seq<char>) -> Option<Self::V>;

    /// Reads a value from `haystack`.
    fn new_from_regex(haystack: &str) -> (r: Option<Self>)
        ensures
            view_opt(r) == Self::parse_spec(haystack@),
    ;
}

/// A task request carried in the payload of a diagnostic line.
pub trait TaskMessage: RegexParse {
    /// The summary that the request carries.
    spec fn summary_of(&self) -> Seq<char>;

    /// The queue that the request names.
    spec fn queue_of(&self) -> Seq<char>;

    /// What is shown once the task exists.
    spec fn message_after_created_of(&self) -> Seq<char>;

    /// The summary of the task.
    fn task_summary(&self) -> (r: String)
        ensures
            r@ == self.summary_of(),
    ;

    /// The queue that the task goes to.
    fn task_queue(&self) -> (r: String)
        ensures
            r@ == self.queue_of(),
    ;

    /// The message to show once the task exists.
    fn warning_message_after_created(&self) -> (r: String)
        ensures
            r@ == self.message_after_created_of(),
    ;
}

/// A diagnostic line: the path before its first colon, and the position
/// that follows, where one can be read.
#[derive(Debug)]
pub struct LogFile<T> {
    pub absolute_path: String,
    pub code_fragment: Option<CodeFragment<T>>,
}

/// A line and column, and the task request that follows them, where one can
/// be read.
#[derive(Debug)]
pub struct CodeFragment<T> {
    pub line: usize,
    pub column: usize,
    pub task_info: Option<Message<T>>,
}

/// A task request, by the class of diagnostic that carried it.
#[derive(Debug)]
pub enum Message<T> {
    Warning(T),
}

/// The diagnostic classes that carry task requests.
#[derive(Debug, Clone, Copy, PartialEq, Eq)]
pub enum MessageNames {
    Warning,
}

/// What a log file line reads as.
pub struct LogFileModel<V> {
    pub path: Seq<char>,
    pub code_fragment: Option<CodeFragmentModel<V>>,
}

/// What a line and column block reads as.
pub struct CodeFragmentModel<V> {
    pub line: nat,
    pub column: nat,
    pub task_info: Option<Message<V>>,
}

impl MessageNames {
    /// The keyword of the class in a diagnostic line.
    pub open spec fn keyword(self) -> Seq<char> {
        match self {
            MessageNames::Warning => seq!['w', 'a', 'r', 'n', 'i', 'n', 'g'],
        }
    }

    /// The class whose keyword is `word`.
    pub open spec fn named(word: Seq<char>) -> Option<MessageNames> {
        if word == MessageNames::Warning.keyword() {
            Some(MessageNames::Warning)
        } else {
            None
        }
    }

    /// The class whose keyword stands in `t` from `from` to `to`.
    pub fn from_keyword(t: &Vec<char>, from: usize, to: usize) -> (r: Option<MessageNames>)
        requires
            from <= to <= t@.len(),
        ensures
            r == MessageNames::named(t@.subrange(from as int, to as int)),
    {
        let word: Vec<char> = vec!['w', 'a', 'r', 'n', 'i', 'n', 'g'];
        assert(word@ == MessageNames::Warning.keyword());
        if to - from != word.len() {
            return None;
        }
        let mut i: usize = 0;
        while i < word.len()
            invariant
                to - from == word@.len(),
                word@ == MessageNames::Warning.keyword(),
                from <= to <= t@.len(),
                i <= word@.len(),
                forall|k: int| 0 <= k < i ==> t@[from + k] == word@[k],
            decreases word@.len() - i,
        {
            if t[from + i] != word[i] {
                assert(t@.subrange(from as int, to as int)[i as int] == t@[from + i]);
                assert(t@.subrange(from as int, to as int) != word@);
                return None;
            }
            i = i + 1;
        }
        assert(t@.subrange(from as int, to as int) =~= word@);
        Some(MessageNames::Warning)
    }
}

impl<T: TaskMessage> View for Message<T> {
    type V = Message<T::V>;

    open spec fn view(&self) -> Message<T::V> {
        match self {
            Message::Warning(v) => Message::Warning(v@),
        }
    }
}

impl<T: TaskMessage> View for CodeFragment<T> {
    type V = CodeFragmentModel<T::V>;

    open spec fn view(&self) -> CodeFragmentModel<T::V> {
        CodeFragmentModel {
            line: self.line as nat,
            column: self.column as nat,
            task_info: view_opt(self.task_info),
        }
    }
}

impl<T: TaskMessage> View for LogFile<T> {
    type V = LogFileModel<T::V>;

    open spec fn view(&self) -> LogFileModel<T::V> {
        LogFileModel { path: self.absolute_path@, code_fragment: view_opt(self.code_fragment) }
    }
}

impl<T: TaskMessage> RegexParse for Message<T> {
    /// Leading whitespace, then a keyword up to the next colon; the text after
    /// that colon is the payload, which only a known keyword reads.
    open spec fn parse_spec(text: Seq<char>) -> Option<Message<T::V>> {
        let k = space_run_end(text, 0);
        match first_colon(text, k) {
            Some(c) => match MessageNames::named(text.subrange(k, c)) {
                Some(MessageNames::Warning) => match T::parse_spec(
                    text.subrange(c + 1, text.len() as int),
                ) {
                    Some(v) => Some(Message::Warning(v)),
                    None => None,
                },
                None => None,
            },
            None => None,
        }
    }

    fn new_from_regex(haystack: &str) -> (r: Option<Self>) {
        let t = chars_of(haystack);
        let k = space_end(&t, 0);
        let c = match find_colon(&t, k) {
            Some(c) => c,
            None => return None,
        };
        proof {
            lemma_first_colon_range(t@, k as int);
        }
        assert(k <= c < t@.len());
        match MessageNames::from_keyword(&t, k, c) {
            Some(MessageNames::Warning) => {
                let rest = haystack.substring_char(c + 1, t.len());
                match T::new_from_regex(rest) {
                    Some(v) => Some(Message::Warning(v)),
                    None => None,
                }
            },
            None => None,
        }
    }
}

impl<T: TaskMessage> RegexParse for CodeFragment<T> {
    /// The first `digits:digits:` block, each run of digits taken whole; the
    /// text after it is the message. Nothing is read where either number does
    /// not fit in a `usize`.
    open spec fn parse_spec(text: Seq<char>) -> Option<CodeFragmentModel<T::V>> {
        match position_start(text, 0) {
            Some(s) => {
                let a = digit_run_end(text, s);
                let b = digit_run_end(text, a + 1);
                let line = digits_value(text.subrange(s, a));
                let column = digits_value(text.subrange(a + 1, b));
                if line <= usize::MAX && column <= usize::MAX {
                    Some(
                        CodeFragmentModel {
                            line,
                            column,
                            task_info: Message::<T>::parse_spec(
                                text.subrange(b + 1, text.len() as int),
                            ),
                        },
                    )
                } else {
                    None
                }
            },
            None => None,
        }
    }

    fn new_from_regex(haystack: &str) -> (r: Option<Self>) {
        let t = chars_of(haystack);
        let mut s: usize = 0;
        while s < t.len()
            invariant
                t@ == haystack@,
                position_start(t@, 0) == position_start(t@, s as int),
            decreases t@.len() - s,
        {
            let a = digit_end(&t, s);
            if a > s && a < t.len() && t[a] == ':' {
                let b = digit_end(&t, a + 1);
                if b > a + 1 && b < t.len() && t[b] == ':' {
                    assert(position_at(t@, s as int));
                    let line = parse_digits(&t, s, a);
                    let column = parse_digits(&t, a + 1, b);
                    match (line, column) {
                        (Some(line), Some(column)) => {
                            let rest = haystack.substring_char(b + 1, t.len());
                            return Some(
                                CodeFragment {
                                    line,
                                    column,
                                    task_info: Message::new_from_regex(rest),
                                },
                            );
                        },
                        _ => {
                            return None;
                        },
                    }
                }
            }
            s = s + 1;
        }
        None
    }
}

impl<T: TaskMessage> RegexParse for LogFile<T> {
    /// The path is the text before the first colon that is not the first
    /// character; the text after that colon holds the position.
    open spec fn parse_spec(text: Seq<char>) -> Option<LogFileModel<T::V>> {
        match first_colon(text, 1) {
            Some(i) => Some(
                LogFileModel {
                    path: text.subrange(0, i),
                    code_fragment: CodeFragment::<T>::parse_spec(
                        text.subrange(i + 1, text.len() as int),
                    ),
                },
            ),
            None => None,
        }
    }

    fn new_from_regex(haystack: &str) -> (r: Option<Self>) {
        let t = chars_of(haystack);
        let i = match find_colon(&t, 1) {
            Some(i) => i,
            None => return None,
        };
        proof {
            lemma_first_colon_range(t@, 1);
        }
        let absolute_path = haystack.substring_char(0, i).to_string();
        let rest = haystack.substring_char(i + 1, t.len());
        Some(LogFile { absolute_path, code_fragment: CodeFragment::new_from_regex(rest) })
    }
}

/// A task request for a warning: a summary and a queue, read from a JSON
/// object between `s#` and `#s`.
#[derive(Debug)]
pub struct MyWarning {
    pub summary: String,
    pub queue: String,
}

/// What a warning's task request reads as.
pub struct MyWarningModel {
    pub summary: Seq<char>,
    pub queue: Seq<char>,
}

impl View for MyWarning {
    type V = MyWarningModel;

    open spec fn view(&self) -> MyWarningModel {
        MyWarningModel { summary: self.summary@, queue: self.queue@ }
    }
}

impl MyWarning {
    /// A request made of the string members `summary` and `queue` of a JSON
    /// text, when both are there.
    pub fn from_members(summary: Option<String>, queue: Option<String>) -> (r: Option<MyWarning>)
        ensures
            match (summary, queue) {
                (Some(s), Some(q)) => r is Some && r->0.summary@ == s@ && r->0.queue@ == q@,
                _ => r is None,
            },
    {
        match (summary, queue) {
            (Some(summary), Some(queue)) => Some(MyWarning { summary, queue }),
            _ => None,
        }
    }
}

impl RegexParse for MyWarning {
    /// The string members `summary` and `queue` of the JSON object between
    /// the first `s#` and the `#s` after it.
    open spec fn parse_spec(text: Seq<char>) -> Option<MyWarningModel> {
        match delimited_body(text) {
            Some(body) => match (
                json_string_member_of(body, "summary"@),
                json_string_member_of(body, "queue"@),
            ) {
                (Some(summary), Some(queue)) => Some(MyWarningModel { summary, queue }),
                _ => None,
            },
            None => None,
        }
    }

    fn new_from_regex(haystack: &str) -> (r: Option<Self>) {
        let body = match payload_body(haystack) {
            Some(body) => body,
            None => return None,
        };
        let summary = json_string_member(body.as_str(), "summary");
        let queue = json_string_member(body.as_str(), "queue");
        MyWarning::from_members(summary, queue)
    }
}

impl TaskMessage for MyWarning {
    open spec fn summary_of(&self) -> Seq<char> {
        self.summary@
    }

    open spec fn queue_of(&self) -> Seq<char> {
        self.queue@
    }

    open spec fn message_after_created_of(&self) -> Seq<char> {
        Seq::empty()
    }

    fn task_summary(&self) -> (r: String) {
        self.summary.as_str().to_string()
    }

    fn task_queue(&self) -> (r: String) {
        self.queue.as_str().to_string()
    }

    fn warning_message_after_created(&self) -> (r: String) {
        String::new()
    }
}

} // verus!
