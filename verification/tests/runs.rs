use base64::Engine;
use rt::error::{ExceptionDetail, HarnessFailure, HarnessFailureKind, RtError};
use rt::metadata::{LoadError, Source};
use rt::run_result::{
    CapturedBytes, CapturedOutput, ErrorKind, OutputEncoding, RunResult, RunStatus, CAPTURE_LIMIT,
    RUN_RESULT_SCHEMA_VERSION,
};
use rt::runner::{prepare_failure_result, run, run_json, CapturedRun, PrepareError};

fn load_error() -> LoadError {
    LoadError {
        file: "tasks/broken.rb".to_string(),
        class: "SyntaxError".to_string(),
        message: "unexpected end-of-input".to_string(),
        source: Source::Project,
    }
}

fn captured(code: Option<i32>, out: &[u8], err: &[u8], failure: Option<HarnessFailure>) -> CapturedRun {
    CapturedRun {
        code,
        stdout: CapturedBytes::from_stream(out),
        stderr: CapturedBytes::from_stream(err),
        failure,
    }
}

fn exception(kind: HarnessFailureKind) -> HarnessFailure {
    HarnessFailure {
        kind,
        class: "RuntimeError".to_string(),
        message: "kaboom".to_string(),
        backtrace: vec!["tasks/boom.rb:3:in `block in <top (required)>'".to_string()],
    }
}

#[test]
fn successful_run_reports_text_output() {
    let r = run_json("greet", Vec::new(), Ok(captured(Some(0), b"Hello, sora!\n", b"", None)));
    assert_eq!(r.schema_version, RUN_RESULT_SCHEMA_VERSION);
    assert_eq!(r.schema_version, 2);
    assert_eq!(r.task, "greet");
    assert_eq!(r.status, RunStatus::Success);
    assert_eq!(r.exit_code, 0);
    assert_eq!(r.stdout.encoding, OutputEncoding::Utf8);
    assert_eq!(r.stdout.data, "Hello, sora!\n");
    assert_eq!(r.stdout.total_bytes, 13);
    assert_eq!(r.stdout.captured_bytes, 13);
    assert!(!r.stdout.truncated);
    assert_eq!(r.stderr.data, "");
    assert_eq!(r.stderr.total_bytes, 0);
    assert!(r.error.is_none());
    assert!(r.load_errors.is_empty());
}

#[test]
fn binary_output_is_base64_encoded() {
    let r = run_json("binary_stdout", Vec::new(), Ok(captured(Some(0), &[0xff, 0xfe], b"", None)));
    assert_eq!(r.stdout.encoding, OutputEncoding::Base64);
    assert_eq!(r.stdout.data, "//4=");
    assert_eq!(r.stdout.total_bytes, 2);
    assert_eq!(r.stdout.captured_bytes, 2);
    assert!(!r.stdout.truncated);
}

#[test]
fn base64_pads_each_remainder() {
    let one = CapturedOutput::from_capture(CapturedBytes::from_stream(&[0xff]));
    assert_eq!(one.data, "/w==");
    let three = CapturedOutput::from_capture(CapturedBytes::from_stream(&[0xff, 0xfe, 0xfd]));
    assert_eq!(three.data, "//79");
    let four = CapturedOutput::from_capture(CapturedBytes::from_stream(&[0x80, 0x00, 0x00, 0xff]));
    assert_eq!(four.encoding, OutputEncoding::Base64);
    assert_eq!(four.data, "gAAA/w==");
}

#[test]
fn task_exception_is_reported_structurally() {
    let r = run_json(
        "boom",
        vec![load_error()],
        Ok(captured(Some(1), b"", b"", Some(exception(HarnessFailureKind::TaskException)))),
    );
    assert_eq!(r.status, RunStatus::Error);
    assert_eq!(r.exit_code, 1);
    let e = r.error.expect("error");
    assert_eq!(e.kind, ErrorKind::TaskException);
    assert_eq!(e.class.as_deref(), Some("RuntimeError"));
    assert_eq!(e.message, "kaboom");
    assert_eq!(e.backtrace.len(), 1);
    assert_eq!(r.load_errors.len(), 1);
    assert_eq!(r.load_errors[0].file, "tasks/broken.rb");
}

#[test]
fn environment_failure_exits_74() {
    let r = run_json("gems", Vec::new(), Ok(captured(Some(74), b"", b"x", Some(exception(HarnessFailureKind::Environment)))));
    assert_eq!(r.exit_code, 74);
    let e = r.error.expect("error");
    assert_eq!(e.kind, ErrorKind::Environment);
    assert_eq!(e.class.as_deref(), Some("RuntimeError"));
}

#[test]
fn custom_exit_code_is_preserved() {
    let r = run_json("bail", Vec::new(), Ok(captured(Some(3), b"", b"", None)));
    assert_eq!(r.exit_code, 3);
    let e = r.error.expect("error");
    assert_eq!(e.kind, ErrorKind::TaskExit);
    assert_eq!(e.message, "task exited with code 3");
    assert!(e.class.is_none());
}

#[test]
fn reserved_exit_codes_map_to_their_kinds() {
    let internal = run_json("x", Vec::new(), Ok(captured(Some(70), b"", b"", None))).error.unwrap();
    assert_eq!(internal.kind, ErrorKind::Internal);
    assert_eq!(internal.message, "task harness exited with code 70");
    let env = run_json("x", Vec::new(), Ok(captured(Some(74), b"", b"", None))).error.unwrap();
    assert_eq!(env.kind, ErrorKind::Environment);
    assert_eq!(env.message, "task environment setup exited with code 74");
}

#[test]
fn signal_is_an_internal_error() {
    let r = run_json("x", Vec::new(), Ok(captured(None, b"", b"", None)));
    assert_eq!(r.exit_code, 70);
    let e = r.error.unwrap();
    assert_eq!(e.kind, ErrorKind::Internal);
    assert_eq!(e.message, "internal error: task terminated by signal");
}

#[test]
fn start_failure_has_empty_output() {
    let r = run_json("greet", Vec::new(), Err(RtError::Environment("could not start Ruby".to_string())));
    assert_eq!(r.exit_code, 74);
    assert_eq!(r.stdout.total_bytes, 0);
    assert_eq!(r.stdout.data, "");
    assert_eq!(r.stdout.encoding, OutputEncoding::Utf8);
    assert_eq!(r.error.unwrap().kind, ErrorKind::Environment);
}

#[test]
fn unprepared_run_is_reported_with_its_load_errors() {
    let failure = PrepareError { error: RtError::Usage("no rt project found".to_string()), load_errors: vec![load_error()] };
    let r = prepare_failure_result("greet", failure);
    assert_eq!(r.exit_code, 2);
    assert_eq!(r.task, "greet");
    let e = r.error.unwrap();
    assert_eq!(e.kind, ErrorKind::Usage);
    assert_eq!(e.message, "no rt project found");
    assert_eq!(r.load_errors.len(), 1);
}

#[test]
fn capture_keeps_the_limit_and_counts_the_rest() {
    let limit = CAPTURE_LIMIT as usize;
    let exact = vec![b'a'; limit];
    let c = CapturedOutput::from_capture(CapturedBytes::from_stream(&exact));
    assert_eq!(c.total_bytes, 1048576);
    assert_eq!(c.captured_bytes, 1048576);
    assert!(!c.truncated);
    let over = vec![b'b'; limit + 1];
    let c = CapturedOutput::from_capture(CapturedBytes::from_stream(&over));
    assert_eq!(c.total_bytes, 1048577);
    assert_eq!(c.captured_bytes, 1048576);
    assert!(c.truncated);
    assert_eq!(c.data.len(), limit);
}

#[test]
fn chunked_capture_matches_whole_capture() {
    let stream: Vec<u8> = (0..(CAPTURE_LIMIT as usize + 10)).map(|i| (i % 251) as u8).collect();
    let whole = CapturedBytes::from_stream(&stream);
    let mut parts = CapturedBytes::empty();
    for chunk in stream.chunks(4096) {
        parts.record(chunk);
    }
    assert_eq!(parts.data, whole.data);
    assert_eq!(parts.total_bytes, whole.total_bytes);
    assert_eq!(parts.total_bytes, (CAPTURE_LIMIT + 10) as u64);
}

#[test]
fn foreground_run_outcomes() {
    assert!(run(Some(0), None).is_ok());
    match run(Some(3), None) {
        Err(RtError::TaskExit(3)) => {},
        other => panic!("unexpected {:?}", other),
    }
    match run(None, None) {
        Err(RtError::Internal(m)) => assert_eq!(m, "task terminated by signal"),
        other => panic!("unexpected {:?}", other),
    }
    match run(Some(0), Some(exception(HarnessFailureKind::TaskException))) {
        Err(RtError::Task(d)) => assert_eq!(d.message, "kaboom"),
        other => panic!("unexpected {:?}", other),
    }
}

#[test]
fn success_and_error_results() {
    let ok = RunResult::success("t", CapturedBytes::empty(), CapturedBytes::empty(), Vec::new());
    assert_eq!(ok.status, RunStatus::Success);
    assert_eq!(ok.exit_code, 0);
    let detail = ExceptionDetail { class: "E".to_string(), message: "m".to_string(), backtrace: Vec::new() };
    let err = RunResult::error("t", RtError::Task(detail), CapturedBytes::empty(), CapturedBytes::empty(), Vec::new());
    assert_eq!(err.status, RunStatus::Error);
    assert_eq!(err.exit_code, 1);
}

#[test]
fn reports_give_back_the_captured_bytes() {
    for bytes in [vec![], vec![0xffu8], vec![0xff, 0xfe], vec![0, 1, 2, 0x80], b"plain text\n".to_vec(), vec![0xe2, 0x82]] {
        let o = CapturedOutput::from_capture(CapturedBytes::from_stream(&bytes));
        match o.encoding {
            OutputEncoding::Utf8 => assert_eq!(o.data.as_bytes(), &bytes[..]),
            OutputEncoding::Base64 => {
                assert_eq!(base64::engine::general_purpose::STANDARD.decode(&o.data).unwrap(), bytes)
            },
        }
        assert_eq!(o.captured_bytes as usize, bytes.len());
    }
}
