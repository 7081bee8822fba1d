use rt::args::parse_bool;
use rt::error::{ExceptionDetail, RtError};
use rt::json::JsonValue;
use rt::metadata::{Metadata, Source, Task};
use rt::project::find_project;
use rt::runner::unknown_task;
use rt::text::{decimal_text, parse_i64, trim};

#[test]
fn decimal_text_of_extremes() {
    assert_eq!(decimal_text(0), "0");
    assert_eq!(decimal_text(-42), "-42");
    assert_eq!(decimal_text(i64::MAX), "9223372036854775807");
    assert_eq!(decimal_text(i64::MIN), "-9223372036854775808");
}

#[test]
fn parse_i64_follows_std() {
    for s in ["0", "17", "-3", "+8", "9223372036854775807", "-9223372036854775808"] {
        assert_eq!(parse_i64(s), s.parse::<i64>().ok(), "{}", s);
    }
    for s in ["", "-", "+", "lots", "1.5", " 1", "9223372036854775808", "--1"] {
        assert_eq!(parse_i64(s), None, "{}", s);
    }
}

#[test]
fn booleans_accept_the_documented_words() {
    for s in ["true", "1", "yes"] {
        assert_eq!(parse_bool(s), Some(true));
    }
    for s in ["false", "0", "no"] {
        assert_eq!(parse_bool(s), Some(false));
    }
    assert_eq!(parse_bool("TRUE"), None);
    assert_eq!(parse_bool(""), None);
}

#[test]
fn trim_matches_std() {
    for s in ["", "  a b  ", "\n\tx\u{3000}", "plain", " \u{85} "] {
        assert_eq!(trim(s), s.trim());
    }
}

fn unknown_message(name: &str) -> String {
    let meta = Metadata {
        schema_version: 4,
        tasks: vec![Task {
            name: "greet".to_string(),
            description: None,
            file: "tasks/greet.rb".to_string(),
            params: Vec::new(),
            options: Vec::new(),
            gems: Vec::new(),
            requirements: Vec::new(),
            source: Source::Project,
        }],
        errors: Vec::new(),
    };
    unknown_task(&meta, name).to_text()
}

#[test]
fn debug_quoting_escapes_quotes() {
    let tail = ". Available tasks: greet";
    assert_eq!(unknown_message("nope"), format!("unknown task \"nope\"{tail}"));
    assert_eq!(unknown_message("a\"b"), format!("unknown task \"a\\\"b\"{tail}"));
    assert_eq!(unknown_message("it's"), format!("unknown task \"it's\"{tail}"));
    assert_eq!(unknown_message("back\\slash"), format!("unknown task \"back\\\\slash\"{tail}"));
    assert_eq!(unknown_message("tab\there"), format!("unknown task \"tab\\there\"{tail}"));
    assert_eq!(unknown_message("café"), format!("unknown task \"café\"{tail}"));
}

#[test]
fn path_text_replaces_invalid_bytes() {
    let e = find_project(Some((b"/tmp/rt".to_vec(), false)), Vec::new()).unwrap_err();
    assert_eq!(e.to_text(), "RT_ROOT is set to /tmp/rt but no .rt/ directory was found there");
    let e = find_project(Some((b"/tmp/rt-\xff-project".to_vec(), false)), Vec::new()).unwrap_err();
    assert_eq!(e.to_text(), "RT_ROOT is set to /tmp/rt-\u{fffd}-project but no .rt/ directory was found there");
}

#[test]
fn json_text_matches_serde_json() {
    let tricky = "a\"b\\c\n\u{1}\u{8}\u{c}\r\t\u{1f}\u{7f}é/";
    assert_eq!(JsonValue::Str(tricky.to_string()).to_json_text(), serde_json::to_string(tricky).unwrap());
    assert_eq!(JsonValue::Str(tricky.to_string()).to_json_text(), "\"a\\\"b\\\\c\\n\\u0001\\b\\f\\r\\t\\u001f\u{7f}é/\"");
    assert_eq!(JsonValue::Int(-5).to_json_text(), "-5");
    assert_eq!(JsonValue::Bool(true).to_json_text(), "true");
    assert_eq!(JsonValue::Null.to_json_text(), "null");
    assert_eq!(JsonValue::Raw("[1,2]".to_string()).to_json_text(), "[1,2]");
}

#[test]
fn error_text_and_exit_codes() {
    let d = ExceptionDetail {
        class: "RuntimeError".to_string(),
        message: "kaboom".to_string(),
        backtrace: vec!["a.rb:1".to_string(), "b.rb:2".to_string()],
    };
    let e = RtError::Task(d.clone());
    assert_eq!(e.exit_code(), 1);
    assert_eq!(e.to_text(), "RuntimeError: kaboom\n    from a.rb:1\n    from b.rb:2");
    assert_eq!(RtError::EnvironmentFailure(d).exit_code(), 74);
    assert_eq!(RtError::Usage("u".to_string()).exit_code(), 2);
    assert_eq!(RtError::Internal("i".to_string()).exit_code(), 70);
    assert_eq!(RtError::Internal("i".to_string()).to_text(), "internal error: i");
    assert_eq!(RtError::Environment("e".to_string()).exit_code(), 74);
    assert_eq!(RtError::TaskExit(9).exit_code(), 9);
    assert_eq!(RtError::TaskExit(9).to_text(), "task exited with code 9");
}
