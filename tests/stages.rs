use logtask::scan::{chars_of, payload_body};
use logtask::{CodeFragment, LogFile, Message, MessageNames, MyWarning, RegexParse, TaskMessage};

fn warning_of(line: &str) -> Option<(String, usize, usize, Option<(String, String)>)> {
    let log_file = LogFile::<MyWarning>::new_from_regex(line)?;
    let fragment = log_file.code_fragment?;
    let task = fragment.task_info.map(|m| match m {
        Message::Warning(w) => (w.summary, w.queue),
    });
    Some((log_file.absolute_path, fragment.line, fragment.column, task))
}

#[test]
fn no_colon_gives_nothing() {
    assert!(LogFile::<MyWarning>::new_from_regex("").is_none());
    assert!(LogFile::<MyWarning>::new_from_regex("no colon here at all").is_none());
    assert!(LogFile::<MyWarning>::new_from_regex(":").is_none());
}

#[test]
fn path_is_text_before_first_colon() {
    let log_file = LogFile::<MyWarning>::new_from_regex("a:b:c").unwrap();
    assert_eq!(log_file.absolute_path, "a");
    assert!(log_file.code_fragment.is_none());
    let leading = LogFile::<MyWarning>::new_from_regex(":abc:1:2:").unwrap();
    assert_eq!(leading.absolute_path, ":abc");
    assert_eq!(leading.code_fragment.unwrap().line, 1);
}

#[test]
fn well_formed_line_reads_every_field() {
    let line = r#"src/main.rs:7:9: warning: s#{"queue": "OPS", "summary": "Fix it"}#s"#;
    assert_eq!(
        warning_of(line),
        Some((
            "src/main.rs".to_string(),
            7,
            9,
            Some(("Fix it".to_string(), "OPS".to_string()))
        ))
    );
}

#[test]
fn spaces_around_keyword_do_not_matter() {
    let spaced = r#"path/to/file.log:123:456: warning: s#{"queue": "TESTAPI", "summary": "Create a task"}#s"#;
    let tight = r#"path/to/file.log:123:456:warning:s#{"queue": "TESTAPI", "summary": "Create a task"}#s"#;
    let wide = r#"path/to/file.log:123:456:   warning:   s#{"queue": "TESTAPI", "summary": "Create a task"}#s"#;
    assert_eq!(warning_of(spaced), warning_of(tight));
    assert_eq!(warning_of(spaced), warning_of(wide));
    assert!(warning_of(tight).unwrap().3.is_some());
}

#[test]
fn other_keywords_give_no_message() {
    for line in [
        r#"f:1:2: error: s#{"queue": "Q", "summary": "S"}#s"#,
        r#"f:1:2: Warning: s#{"queue": "Q", "summary": "S"}#s"#,
        r#"f:1:2: warnings: s#{"queue": "Q", "summary": "S"}#s"#,
        r#"f:1:2:: s#{"queue": "Q", "summary": "S"}#s"#,
    ] {
        let read = warning_of(line).unwrap();
        assert_eq!(read.0, "f");
        assert_eq!((read.1, read.2), (1, 2));
        assert!(read.3.is_none());
    }
}

#[test]
fn bad_payloads_give_no_message() {
    for line in [
        r#"f:1:2: warning: s#{"queue": "Q", "summary": "S"}"#,
        r#"f:1:2: warning: {"queue": "Q", "summary": "S"}#s"#,
        "f:1:2: warning: s##s",
        "f:1:2: warning: s#not json#s",
        r#"f:1:2: warning: s#{"queue": "Q"}#s"#,
        r#"f:1:2: warning: s#{"queue": "Q", "summary": 3}#s"#,
    ] {
        let read = warning_of(line).unwrap();
        assert_eq!((read.1, read.2), (1, 2));
        assert!(read.3.is_none());
    }
}

#[test]
fn reading_twice_gives_the_same() {
    let line = r#"x.c:10:20: warning: s#{"queue": "A", "summary": "B"}#s"#;
    assert_eq!(warning_of(line), warning_of(line));
    assert_eq!(warning_of("invalid format"), warning_of("invalid format"));
}

#[test]
fn position_may_follow_a_prefix() {
    let fragment = CodeFragment::<MyWarning>::new_from_regex("tool 12:34: rest").unwrap();
    assert_eq!((fragment.line, fragment.column), (12, 34));
    assert!(fragment.task_info.is_none());
    assert!(CodeFragment::<MyWarning>::new_from_regex("12:x:").is_none());
    assert!(CodeFragment::<MyWarning>::new_from_regex("12:34").is_none());
}

#[test]
fn position_too_large_gives_none() {
    let line = "f:99999999999999999999999:1: warning: s#{\"queue\": \"Q\", \"summary\": \"S\"}#s";
    let log_file = LogFile::<MyWarning>::new_from_regex(line).unwrap();
    assert_eq!(log_file.absolute_path, "f");
    assert!(log_file.code_fragment.is_none());
    let max = format!("f:{}:0:", usize::MAX);
    let fragment = LogFile::<MyWarning>::new_from_regex(&max).unwrap().code_fragment.unwrap();
    assert_eq!(fragment.line, usize::MAX);
    assert_eq!(fragment.column, 0);
}

#[test]
fn message_stage_alone() {
    let m = Message::<MyWarning>::new_from_regex(r#"  warning: s#{"queue": "Q", "summary": "S"}#s"#);
    match m {
        Some(Message::Warning(w)) => {
            assert_eq!(w.queue, "Q");
            assert_eq!(w.summary, "S");
        }
        None => panic!("expected a warning"),
    }
    assert!(Message::<MyWarning>::new_from_regex("warning s#{}#s").is_none());
}

#[test]
fn payload_body_takes_first_block() {
    assert_eq!(payload_body("xx s#abc#s yy s#def#s"), Some("abc".to_string()));
    assert_eq!(payload_body("s#a#s#s"), Some("a".to_string()));
    assert_eq!(payload_body("s##s"), None);
    assert_eq!(payload_body("s##s#s"), Some("#s".to_string()));
    assert_eq!(payload_body("no markers"), None);
    assert_eq!(payload_body("#s s#x"), None);
}

#[test]
fn warning_decodes_members() {
    let w = MyWarning::new_from_regex(r#"s#{"summary": "S1", "queue": "Q1", "extra": 1}#s"#).unwrap();
    assert_eq!(w.task_summary(), "S1");
    assert_eq!(w.task_queue(), "Q1");
    assert_eq!(w.warning_message_after_created(), "");
    assert!(MyWarning::new_from_regex(r#"s#{"summary": "S1"}#s"#).is_none());
    assert!(MyWarning::from_members(Some("a".to_string()), None).is_none());
    let built = MyWarning::from_members(Some("a".to_string()), Some("b".to_string())).unwrap();
    assert_eq!((built.summary.as_str(), built.queue.as_str()), ("a", "b"));
}

#[test]
fn keyword_registry() {
    let t = chars_of("  warning:");
    assert_eq!(MessageNames::from_keyword(&t, 2, 9), Some(MessageNames::Warning));
    assert_eq!(MessageNames::from_keyword(&t, 1, 9), None);
    assert_eq!(MessageNames::from_keyword(&t, 2, 2), None);
}

#[test]
fn any_whitespace_may_precede_keyword() {
    let payload = r#"s#{"queue": "Q", "summary": "S"}#s"#;
    for lead in ["\t", "\u{3000}", " \u{a0} ", "\u{2009}"] {
        let line = format!("f:1:2:{}warning:{}", lead, payload);
        assert_eq!(
            warning_of(&line).unwrap().3,
            Some(("S".to_string(), "Q".to_string()))
        );
    }
    let line = format!("f:1:2:_warning:{}", payload);
    assert!(warning_of(&line).unwrap().3.is_none());
}
