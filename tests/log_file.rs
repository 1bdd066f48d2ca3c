use logtask::{LogFile, Message, MyWarning, RegexParse};

#[test]
fn test_log_file_parse_missing_queue() {
    let log_line = r#"path/to/file.log:123:456: warning: s#{"summary": "Create a task"}#s"#;
    match LogFile::<MyWarning>::new_from_regex(log_line) {
        Some(log_file) => match log_file.code_fragment {
            Some(code_fragment) => match code_fragment.task_info {
                Some(_) => panic!("Expected parsing to fail due to missing 'queue' field"),
                None => return,
            },
            None => panic!("Expected code fragment to be found as '123:456' is present"),
        },
        None => panic!("Expected log file to be found as 'path/to/file.log' is present"),
    }
}

#[test]
fn test_log_file_parse_missing_s_s_delimiters() {
    let log_line = r#"path/to/file.log:123:456: warning: {"queue": "TESTAPI", "summary": "Create a task"}"#;
    match LogFile::<MyWarning>::new_from_regex(log_line) {
        Some(log_file) => match log_file.code_fragment {
            Some(code_fragment) => match code_fragment.task_info {
                Some(_) => {
                    panic!("Expected parsing to fail due to missing 's##s' delimiters")
                }
                None => return,
            },
            None => panic!("Expected code fragment to be found as '123:456' is present"),
        },
        None => panic!("Expected log file to be found as 'path/to/file.log' is present"),
    }
}

#[test]
fn test_log_file_parse_missing_warning_keyword() {
    let log_line =
        r#"path/to/file.log:123:456: s#{"queue": "TESTAPI", "summary": "Create a task"}#s"#;
    match LogFile::<MyWarning>::new_from_regex(log_line) {
        Some(log_file) => match log_file.code_fragment {
            Some(code_fragment) => match code_fragment.task_info {
                Some(_) => panic!("Expected parsing to fail due to missing 'warning' keyword"),
                None => return,
            },
            None => panic!("Expected code fragment to be found as '123:456' is present"),
        },
        None => panic!("Expected log file to be found as 'path/to/file.log' is present"),
    }
}

#[test]
fn test_log_file_parse_incorrect_warning_formatting() {
    let log_line = r#"path/to/file.log:123:456:warning:s#{"queue": "TESTAPI", "summary": "Create a task"}#s"#;
    match LogFile::<MyWarning>::new_from_regex(log_line) {
        Some(log_file) => match log_file.code_fragment {
            Some(code_fragment) => match code_fragment.task_info {
                Some(_) => return,
                None => panic!("Expected parsing to succeed as whitespace around ':' is optional"),
            },
            None => panic!("Expected code fragment to be found as '123:456' is present"),
        },
        None => panic!("Expected log file to be found as 'path/to/file.log' is present"),
    }
}

#[test]
fn test_log_file_parse_incorrect_format() {
    let log_line = r#"invalid format"#;
    let log_file = LogFile::<MyWarning>::new_from_regex(log_line);
    assert!(log_file.is_none(), "Expected parsing to fail due to incorrect log format");
}

#[test]
fn test_log_file_parse_success_without_s_s() {
    let log_line = "path/to/file.log:123:456:warning: some message";
    match LogFile::<MyWarning>::new_from_regex(log_line) {
        Some(log_file) => match log_file.code_fragment {
            Some(code_fragment) => match code_fragment.task_info {
                Some(_) => panic!("Expected parsing to fail due to missing 's##s' delimiters"),
                None => return,
            },
            None => panic!("Expected code fragment to be found as '123:456' is present"),
        },
        None => panic!("Expected log file to be found as 'path/to/file.log' is present"),
    }
}

#[test]
fn test_log_file_parse_success_with_empty_s_s() {
    let log_line = "path/to/file.log:123:456:warning: s##s";
    match LogFile::<MyWarning>::new_from_regex(log_line) {
        Some(log_file) => match log_file.code_fragment {
            Some(code_fragment) => match code_fragment.task_info {
                Some(_) => panic!("Expected parsing to fail due to missing JSON inside 's##s'"),
                None => return,
            },
            None => panic!("Expected code fragment to be found as '123:456' is present"),
        },
        None => panic!("Expected log file to be found as 'path/to/file.log' is present"),
    }
}

#[test]
fn test_log_file_parse_success_valid_log() {
    let log_line = r#"path/to/file.log:123:456: warning: s#{"queue": "TESTAPI", "summary": "Create a task"}#s"#;
    let log_file = LogFile::<MyWarning>::new_from_regex(log_line).unwrap();

    assert_eq!(log_file.absolute_path, "path/to/file.log");

    let code_fragment = log_file.code_fragment.unwrap();
    assert_eq!(code_fragment.line, 123);
    assert_eq!(code_fragment.column, 456);

    let message = code_fragment.task_info.unwrap();
    match message {
        Message::Warning(warning) => {
            assert_eq!(warning.queue, "TESTAPI");
            assert_eq!(warning.summary, "Create a task");
        }
    }
}

#[test]
fn test_log_file_parse_failure_invalid_format() {
    let invalid_log_line = "invalid format";
    let log_file = LogFile::<MyWarning>::new_from_regex(invalid_log_line);
    assert!(log_file.is_none());
}
