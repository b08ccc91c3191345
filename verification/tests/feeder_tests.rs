use docktail::feeder::{Parser, ParserOutput};
use docktail::render::PrintConfig;
use docktail::record::Severity;
use docktail::json::JsonValue;
use docktail::record::{get_log_line, NormError};
use docktail::record::bunyan_to_level;

fn plain_config() -> PrintConfig {
    PrintConfig {
        extra: vec![],
        verbose: false,
        is_local_timezone: false,
        local_offset_secs: 0,
        oneline_maxlength: None,
        color: false,
        min_severity: None,
    }
}

fn render(output: &ParserOutput) -> String {
    output.print(&plain_config())
}

#[test]
fn respond_to_json_input() {
    let input = r#"{
            "timestamp": {
              "seconds": 1605277107,
              "nanos": 234000000
            },
            "severity": "INFO",
            "message": "Responding at http://0.0.0.0:8080",
            "context": {}
          }"#;
    let lines: Vec<String> = input.split('\n').map(|it| it.to_owned() + "\n").collect();
    let mut parser = Parser::new();

    // Add all but the last line. It is only after the last line that the
    // log statement is complete.
    for i in 0..lines.len() - 1 {
        let response = parser.push(&lines[i]);
        assert_eq!(0, response.len());
    }

    // Add the last line, which will complete the log message.
    let output = parser.push(&lines[lines.len() - 1]);
    let expected = "2020-11-13 14:18:27.234Z INFO    Responding at http://0.0.0.0:8080\n";
    assert_eq!(expected.to_string(), render(&output[0]));
}

#[test]
fn json_input_with_context() {
    let input = r#"{
            "message": "[1167/9733 11% ETA=2022-04-01 20:50:06.868555] Ingesting 389 wells. 693.10 items/sec.",
            "timestamp": "2022-04-01T18:49:54.068831Z",
            "severity": "INFO",
            "context": {
              "requestId": "test",
              "processId": "776f2d01-8bba-4c36-b6a8-5f7074c096d7"
            }
          }"#;
    let lines: Vec<String> = input.split('\n').map(|it| it.to_owned() + "\n").collect();
    let mut parser = Parser::new();

    for i in 0..lines.len() - 1 {
        let response = parser.push(&lines[i]);
        assert_eq!(0, response.len());
    }
    let output = render(&parser.push(&lines[lines.len() - 1])[0]);
    assert_eq!(
        output,
        "2022-04-01 18:49:54.068Z [p=776f2d] INFO    [1167/9733 11% ETA=2022-04-01 20:50:06.868555] Ingesting 389 wells. 693.10 items/sec.\n"
    );
}

#[test]
fn event_time_input_and_extra() {
    let input = r#"{
            "eventTime": "2023-03-15T14:36:07.937134597+00:00",
            "message": "something something",
            "reportLocation": {
              "filePath": "libraries/observability/src/logging/mod.rs",
              "lineNumber": 70,
              "modulePath": "observability::logging"
            },
            "serviceContext": {
              "service": "robotics_services",
              "version": "0.2.1"
            },
            "severity": "ERROR"
          }"#;

    let mut parser = Parser::new();
    let output = parser.push(input);
    let config = PrintConfig {
        extra: vec!["reportLocation.modulePath".to_string()],
        verbose: false,
        is_local_timezone: false,
        local_offset_secs: 0,
        oneline_maxlength: None,
        color: false,
        min_severity: None,
    };
    let buffer_str = output[0].print(&config);
    assert_eq!(
        &buffer_str,
        "2023-03-15 14:36:07.937Z [observability::logging] ERROR   something something\n"
    );
}

#[test]
fn event_time_and_at_timestamp() {
    let input = r#"{
            "event": "Refreshing project usage data",
            "@timestamp": "2023-09-14T12:39:35.604694Z",
            "level": "debug",
            "db": {
              "connection_wait_time_ms": 0,
              "sql_statement_hash": "abc123"
            },
            "project": null,
            "callsite": {
              "pathname": "/app/okkeeper.py",
              "filename": "bookkeeper.py",
              "module": "bookkeeper",
              "func_name": "_keep_refreshing_usage_data",
              "lineno": 116,
              "my_bool": true,
              "my_list": [1, 2, 3],
              "thread": 140450880908160,
              "thread_name": "MainThread"
            }
          }
          "#;

    let mut parser = Parser::new();
    let output = parser.push(input);
    let config = PrintConfig {
        extra: vec!["callsite.module".to_string()],
        verbose: false,
        is_local_timezone: false,
        local_offset_secs: 0,
        oneline_maxlength: None,
        color: false,
        min_severity: None,
    };
    let buffer_str = output[0].print(&config);
    assert_eq!(
        &buffer_str,
        "2023-09-14 12:39:35.604Z [bookkeeper] DEBUG   Refreshing project usage data\n"
    );
}

#[test]
fn with_verbose_printing() {
    let input = r#"{
            "event": "Refreshing project usage data",
            "@timestamp": "2023-09-14T12:39:35.604694Z",
            "level": "debug",
            "db": {
              "connection_wait_time_ms": 0,
              "sql_statement_hash": "abc123"
            },
            "project": null,
            "context": {},
            "callsite": {
              "pathname": "/app/okkeeper.py",
              "filename": "bookkeeper.py",
              "module": "bookkeeper",
              "func_name": "_keep_refreshing_usage_data",
              "lineno": 116,
              "my_bool": true,
              "my_list": [1, 2, 3],
              "thread": 140450880908160,
              "thread_name": "MainThread"
            }
          }"#;

    let mut parser = Parser::new();
    let output = parser.push(input);
    let config = PrintConfig {
        extra: vec!["callsite.module".to_string()],
        verbose: true,
        is_local_timezone: false,
        local_offset_secs: 0,
        oneline_maxlength: None,
        color: false,
        min_severity: None,
    };
    let mut buffer = String::new();
    for o in output {
        buffer.push_str(&o.print(&config));
    }
    let expected = r#"2023-09-14 12:39:35.604Z [bookkeeper] DEBUG   Refreshing project usage data
  callsite:
    filename = bookkeeper.py
    func_name = _keep_refreshing_usage_data
    lineno = 116
    module = bookkeeper
    my_bool = true
    my_list = [Num(1.0), Num(2.0), Num(3.0)]
    pathname = /app/okkeeper.py
    thread = 140450880908160
    thread_name = MainThread
  db:
    connection_wait_time_ms = 0
    sql_statement_hash = abc123
"#;
    assert_eq!(&buffer, expected);
}

#[test]
fn buyan_input() {
    let input = r#"{
            "v": 0,
            "name": "tracing_demo",
            "msg": "Orphan event without a parent span",
            "level": 30,
            "hostname": "sighol-desktop",
            "pid": 293764,
            "time": "2022-02-20T18:05:16.272997204Z",
            "target": "docktail",
            "line": 97,
            "file": "src/main.rs"
          }"#;
    let mut parser = Parser::new();
    let output = parser.push(input);
    let output = render(&output[0]);

    assert_eq!(
        output,
        "2022-02-20 18:05:16.272Z INFO    Orphan event without a parent span\n"
    );
}

#[test]
fn respond_to_text_input() {
    let mut parser = Parser::new();
    assert_eq!(
        render(&ParserOutput::Text("Hello world".to_string())),
        render(&parser.push("Hello world")[0])
    );
}

#[test]
fn multi_record_drain_in_one_chunk() {
    let one = r#"{"time":"2022-02-20T18:05:16.272997204Z","level":30,"msg":"first"}"#;
    let two = r#"{"time":"2022-02-20T18:05:17.000000000Z","level":40,"msg":"second"}"#;
    let chunk = format!("{}{}", one, two);
    let mut parser = Parser::new();
    let outputs = parser.push(&chunk);
    assert_eq!(outputs.len(), 2);
    assert_eq!(
        render(&outputs[0]),
        "2022-02-20 18:05:16.272Z INFO    first\n"
    );
    assert_eq!(
        render(&outputs[1]),
        "2022-02-20 18:05:17.000Z WARN    second\n"
    );
}

#[test]
fn fallback_when_message_missing() {
    let input = r#"{"timestamp":"2022-04-01T18:49:54.068831Z","severity":"INFO"}"#;
    let mut parser = Parser::new();
    let outputs = parser.push(input);
    assert_eq!(outputs.len(), 1);
    // the object's own source text comes back verbatim
    assert_eq!(render(&outputs[0]), input);
}

#[test]
fn flush_returns_buffered_text() {
    let mut parser = Parser::new();
    let outputs = parser.push("{\"partial\":");
    assert_eq!(outputs.len(), 0);
    let flushed = parser.flush();
    assert_eq!(render(&flushed), "{\"partial\":");
    // a second flush has nothing left
    let empty = parser.flush();
    assert_eq!(render(&empty), "");
}

#[test]
fn severity_filter_drops_lower_ranks() {
    let min = Some(docktail::record::Severity::Warning);
    let mut parser = Parser::new();
    let mk = |sev: &str| {
        format!(
            "{{\"time\":\"2022-02-20T18:05:16Z\",\"severity\":\"{}\",\"msg\":\"x\"}}",
            sev
        )
    };
    let info = parser.push(&mk("info"));
    assert!(!docktail::render::should_emit(&info[0], &min));
    let warn = parser.push(&mk("warning"));
    assert!(docktail::render::should_emit(&warn[0], &min));
    let err = parser.push(&mk("error"));
    assert!(docktail::render::should_emit(&err[0], &min));
    let fatal = parser.push(&mk("fatal"));
    assert!(docktail::render::should_emit(&fatal[0], &min));
    // raw text always passes the filter
    let text = ParserOutput::Text("raw".to_string());
    assert!(docktail::render::should_emit(&text, &min));
}

#[test]
fn oneline_mode_truncates_on_char_budget() {
    let input = "{\"time\":\"2022-02-20T18:05:16Z\",\"severity\":\"INFO\",\"msg\":\"line one\\nline two and quite a bit more text to go over the budget for sure\"}";
    let mut parser = Parser::new();
    let outputs = parser.push(input);
    let config = PrintConfig {
        extra: vec![],
        verbose: false,
        is_local_timezone: false,
        local_offset_secs: 0,
        oneline_maxlength: Some(40),
        color: false,
        min_severity: None,
    };
    let rendered = outputs[0].print(&config);
    let message_part = rendered.split("INFO    ").nth(1).unwrap();
    // 37 kept characters plus the ellipsis, and the newline marker instead
    // of the line break
    assert_eq!(message_part.chars().count(), 41);
    assert!(message_part.ends_with("...\n"));
    assert!(message_part.contains('\u{2936}'));
}

#[test]
fn local_timezone_offset_shifts_and_drops_z() {
    let input = "{\"time\":\"2022-02-20T18:05:16Z\",\"severity\":\"INFO\",\"msg\":\"x\"}";
    let mut parser = Parser::new();
    let outputs = parser.push(input);
    let config = PrintConfig {
        extra: vec![],
        verbose: false,
        is_local_timezone: true,
        local_offset_secs: 3600,
        oneline_maxlength: None,
        color: false,
        min_severity: None,
    };
    let rendered = outputs[0].print(&config);
    assert_eq!(rendered, "2022-02-20 19:05:16.000 INFO    x\n");
}

#[test]
fn severity_from_str_names() {
    assert_eq!(Severity::from_str("INFO"), Some(Severity::Info));
    assert_eq!(Severity::from_str("warn"), Some(Severity::Warning));
    assert_eq!(Severity::from_str("Warning"), Some(Severity::Warning));
    assert_eq!(Severity::from_str("trace"), Some(Severity::Tracing));
    assert_eq!(Severity::from_str("fatal"), Some(Severity::Fatal));
    assert_eq!(Severity::from_str("nonsense"), None);
}

#[test]
fn normalization_errors_name_the_reason() {
    let not_object = JsonValue::Str("x".chars().collect());
    assert!(matches!(get_log_line(not_object), Err(NormError::NotAnObject)));

    let no_time = JsonValue::Object(vec![(
        "msg".chars().collect(),
        JsonValue::Str("x".chars().collect()),
    )]);
    assert!(matches!(get_log_line(no_time), Err(NormError::NoTimestamp)));

    let bad_time = JsonValue::Object(vec![(
        "time".chars().collect(),
        JsonValue::Str("not a date".chars().collect()),
    )]);
    assert!(matches!(get_log_line(bad_time), Err(NormError::BadTimestamp)));

    let no_msg = JsonValue::Object(vec![(
        "time".chars().collect(),
        JsonValue::Str("2022-02-20T18:05:16Z".chars().collect()),
    )]);
    assert!(matches!(get_log_line(no_msg), Err(NormError::NoMessage)));
}

#[test]
fn bunyan_table_entries() {
    let s = |v: Vec<char>| v.into_iter().collect::<String>();
    assert_eq!(s(bunyan_to_level(50)), "ERROR");
    assert_eq!(s(bunyan_to_level(40)), "WARN");
    assert_eq!(s(bunyan_to_level(30)), "INFO");
    assert_eq!(s(bunyan_to_level(20)), "DEBUG");
    assert_eq!(s(bunyan_to_level(10)), "TRACING");
    assert_eq!(s(bunyan_to_level(35)), "UNKNOWN");
    assert_eq!(s(bunyan_to_level(-1)), "UNKNOWN");
}

#[test]
fn exc_info_appends_to_message() {
    let input = "{\"time\":\"2022-02-20T18:05:16Z\",\"severity\":\"ERROR\",\"message\":\"boom\",\"exc_info\":\"Traceback: line 1\"}";
    let mut parser = Parser::new();
    let outputs = parser.push(input);
    let rendered = render(&outputs[0]);
    assert_eq!(
        rendered,
        "2022-02-20 18:05:16.000Z ERROR   boom\n     Traceback: line 1\n"
    );
}

#[test]
fn verbose_multiline_string_is_indented() {
    let input = "{\"time\":\"2022-02-20T18:05:16Z\",\"severity\":\"INFO\",\"message\":\"m\",\"note\":\"a\\nb\"}";
    let mut parser = Parser::new();
    let outputs = parser.push(input);
    let config = PrintConfig {
        extra: vec![],
        verbose: true,
        is_local_timezone: false,
        local_offset_secs: 0,
        oneline_maxlength: None,
        color: false,
        min_severity: None,
    };
    let rendered = outputs[0].print(&config);
    assert_eq!(
        rendered,
        "2022-02-20 18:05:16.000Z INFO    m\n  note = \n    a\n    b\n  time = 2022-02-20T18:05:16Z\n"
    );
}
