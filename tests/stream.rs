use assistant_cli::lines::LineBuffer;
use assistant_cli::report::{is_end_text, model_line, preview, size_in_mib, InputCollector};
use assistant_cli::stream::{
    consume, is_success_status, Action, LineOutcome, Phase, StreamConsumer, StreamError, StreamEvent, StreamFragment,
};

fn classify(line: &str) -> LineOutcome {
    let v: serde_json::Value = match serde_json::from_str(line) {
        Ok(v) => v,
        Err(_) => return LineOutcome::Skip,
    };
    match (v.get("response").and_then(|r| r.as_str()), v.get("done").and_then(|d| d.as_bool())) {
        (Some(r), Some(d)) => LineOutcome::Fragment(StreamFragment { response: r.to_string(), done: d }),
        _ => LineOutcome::Skip,
    }
}

fn events(lines: &[&str]) -> Vec<StreamEvent> {
    lines.iter().map(|l| StreamEvent::Line(classify(l))).collect()
}

#[test]
fn three_fragments_render_hello_and_stop() {
    let evs = events(&[
        r#"{"response":"Hel","done":false}"#,
        r#"{"response":"lo","done":false}"#,
        r#"{"response":"","done":true}"#,
        r#"{"response":" more","done":false}"#,
        r#"{"response":" again","done":false}"#,
    ]);
    let r = consume(200, evs);
    assert_eq!(r.output, "Hello");
    assert_eq!(r.used, 3);
    assert_eq!(r.result, Ok(()));
}

#[test]
fn malformed_line_is_skipped() {
    let evs = events(&[
        r#"{"response":"Hel","done":false}"#,
        r#"{"error":"overloaded"}"#,
        "not json at all",
        "",
        r#"{"response":"lo","done":false}"#,
        r#"{"response":"!","done":true}"#,
    ]);
    let r = consume(200, evs);
    assert_eq!(r.output, "Hello!");
    assert_eq!(r.used, 6);
    assert_eq!(r.result, Ok(()));
}

#[test]
fn failed_status_renders_nothing() {
    let evs = events(&[r#"{"response":"Hel","done":false}"#]);
    let r = consume(500, evs);
    assert_eq!(r.output, "");
    assert_eq!(r.used, 0);
    assert_eq!(r.result, Err(StreamError::Status(500)));
    assert!(matches!(StreamConsumer::open(404), Err(StreamError::Status(404))));
}

#[test]
fn status_range() {
    assert!(is_success_status(200));
    assert!(is_success_status(299));
    assert!(!is_success_status(199));
    assert!(!is_success_status(300));
    assert!(!is_success_status(500));
}

#[test]
fn stream_end_without_final_is_success() {
    let mut evs = events(&[r#"{"response":"par","done":false}"#]);
    evs.push(StreamEvent::Exhausted);
    let r = consume(200, evs);
    assert_eq!(r.output, "par");
    assert_eq!(r.used, 2);
    assert_eq!(r.result, Ok(()));
    let r = consume(200, events(&[r#"{"response":"x","done":false}"#]));
    assert_eq!(r.output, "x");
    assert_eq!(r.used, 1);
    assert_eq!(r.result, Ok(()));
}

#[test]
fn read_error_fails_after_partial_output() {
    let mut evs = events(&[r#"{"response":"par","done":false}"#]);
    evs.push(StreamEvent::ReadFailed);
    evs.push(StreamEvent::Exhausted);
    let r = consume(200, evs);
    assert_eq!(r.output, "par");
    assert_eq!(r.used, 2);
    assert_eq!(r.result, Err(StreamError::Read));
}

#[test]
fn consumer_steps() {
    let mut c = StreamConsumer::open(200).ok().unwrap();
    assert!(c.phase == Phase::AwaitingLine);
    assert!(matches!(c.step(StreamEvent::Line(LineOutcome::Skip)), Action::Continue));
    match c.step(StreamEvent::Line(classify(r#"{"response":"a","done":false}"#))) {
        Action::Emit(t) => assert_eq!(t, "a"),
        _ => panic!("expected text"),
    }
    match c.step(StreamEvent::Line(classify(r#"{"response":"b","done":true}"#))) {
        Action::EmitAndStop(t) => assert_eq!(t, "b"),
        _ => panic!("expected final text"),
    }
    assert!(c.phase == Phase::Done);
    assert!(matches!(c.step(StreamEvent::ReadFailed), Action::Stop));
    assert!(c.phase == Phase::Done);
}

#[test]
fn line_buffer_keeps_partial_lines() {
    let mut b = LineBuffer::new();
    let first = b.feed(b"{\"a\":1}\n{\"b\"");
    assert_eq!(first, vec![b"{\"a\":1}".to_vec()]);
    let second = b.feed(b":2}");
    assert!(second.is_empty());
    let third = b.feed(b"\n\nlast");
    assert_eq!(third, vec![b"{\"b\":2}".to_vec(), Vec::new()]);
    assert_eq!(b.finish(), Some(b"last".to_vec()));
    assert_eq!(b.finish(), None);
}

#[test]
fn line_buffer_terminated_stream_has_no_tail() {
    let mut b = LineBuffer::new();
    assert_eq!(b.feed(b"x\ny\n"), vec![b"x".to_vec(), b"y".to_vec()]);
    assert_eq!(b.finish(), None);
}

#[test]
fn mib_sizes() {
    assert_eq!(size_in_mib(0), 0);
    assert_eq!(size_in_mib(1048575), 0);
    assert_eq!(size_in_mib(2097152), 2);
    assert_eq!(size_in_mib(4_700_000_000), 4482);
}

#[test]
fn previews() {
    assert_eq!(preview("short"), "short");
    let long = "a".repeat(60);
    assert_eq!(preview(&long), format!("{}...", "a".repeat(50)));
    assert_eq!(preview(&"b".repeat(50)), "b".repeat(50));
}

#[test]
fn previews_count_bytes() {
    assert_eq!(preview(&"é".repeat(26)), format!("{}...", "é".repeat(25)));
    assert_eq!(preview(&"é".repeat(25)), "é".repeat(25));
    let mixed = format!("{}é", "a".repeat(49));
    assert_eq!(preview(&mixed), format!("{}...", "a".repeat(49)));
    let wide = format!("{}€x", "a".repeat(48));
    assert_eq!(preview(&wide), format!("{}...", "a".repeat(48)));
}

#[test]
fn multiline_input() {
    assert!(is_end_text("END"));
    assert!(!is_end_text("END "));
    let mut c = InputCollector::new();
    assert!(c.push_line("  first line\n"));
    assert!(c.push_line("second\n"));
    assert!(!c.push_line("  END  \n"));
    assert_eq!(c.text, "  first line\nsecond\n");
    assert_eq!(c.finish(), "first line\nsecond");
}

#[test]
fn model_lines() {
    let l = model_line(Some("llama3.2"), Some(2_019_393_189), "llama3.2");
    assert_eq!(l.name, "llama3.2");
    assert_eq!(l.size_mib, 1925);
    assert!(l.is_default);
    let l = model_line(None, None, "llama3.2");
    assert_eq!(l.name, "unknown");
    assert_eq!(l.size_mib, 0);
    assert!(!l.is_default);
}

#[test]
fn many_skipped_lines_change_nothing() {
    let clean = events(&[r#"{"response":"Hel","done":false}"#, r#"{"response":"lo","done":true}"#]);
    let noisy = events(&[
        "",
        r#"{"response":"Hel","done":false}"#,
        r#"{"error":"busy"}"#,
        r#"{"response":"x"}"#,
        "garbage",
        r#"{"response":"lo","done":true}"#,
    ]);
    let a = consume(200, clean);
    let b = consume(200, noisy);
    assert_eq!(a.output, "Hello");
    assert_eq!(a.output, b.output);
    assert_eq!(a.result, b.result);
}

#[test]
fn unicode_white_space_trimmed() {
    let mut c = InputCollector::new();
    assert!(c.push_line("\u{3000}\u{a0} text\u{2003}\n"));
    assert!(!c.push_line("\u{2028}END\u{85}"));
    assert_eq!(c.finish(), "text");
}
