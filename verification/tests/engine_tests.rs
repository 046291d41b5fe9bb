use mini_telnet::decode::default_encoding_list;
use mini_telnet::engine::{LineOutcome, SessionEngine, WaitEvent};
use mini_telnet::error::TelnetError;
use mini_telnet::pattern::Pattern;

fn engine_with(prompts: &[&str], separator: &str) -> SessionEngine {
    let mut compiled = Vec::new();
    for p in prompts {
        compiled.push(Pattern::compile(p).unwrap());
    }
    SessionEngine::new(
        compiled,
        Pattern::compile(separator).unwrap(),
        default_encoding_list(),
    )
}

fn frame(bytes: &[u8]) -> WaitEvent {
    WaitEvent::Frame(bytes.to_vec())
}

#[test]
fn first_declared_prompt_wins() {
    // Both "A" and "AB" match a line holding "AB": the first declared one
    // is reported, whichever order they are declared in.
    let mut engine = engine_with(&["A", "AB"], "--More--");
    match engine.step(frame(b"xAB")).unwrap() {
        LineOutcome::Matched { prompt_index, .. } => assert_eq!(prompt_index, 0),
        other => panic!("expected a match, got {:?}", other),
    }
    let mut engine = engine_with(&["AB", "A"], "--More--");
    match engine.step(frame(b"xAB")).unwrap() {
        LineOutcome::Matched { prompt_index, .. } => assert_eq!(prompt_index, 0),
        other => panic!("expected a match, got {:?}", other),
    }
}

#[test]
fn later_prompt_matches_when_earlier_does_not() {
    let mut engine = engine_with(&["ZZZ", "A"], "--More--");
    match engine.step(frame(b"xAB")).unwrap() {
        LineOutcome::Matched { prompt_index, .. } => assert_eq!(prompt_index, 1),
        other => panic!("expected a match, got {:?}", other),
    }
}

#[test]
fn pagination_sends_one_continuation_per_marker() {
    let mut engine = engine_with(&[r"\w+#\s*"], "--More--");
    let mut boundaries = 0;
    for _ in 0..3 {
        match engine.step(frame(b"alpha --More--\n")).unwrap() {
            LineOutcome::PageBoundary => boundaries += 1,
            other => panic!("expected a page boundary, got {:?}", other),
        }
    }
    assert_eq!(boundaries, 3);
    assert!(matches!(
        engine.step(frame(b"omega\n")).unwrap(),
        LineOutcome::Accumulating
    ));
    match engine.step(frame(b"Switch# ")).unwrap() {
        LineOutcome::Matched { output, .. } => {
            assert_eq!(output, "alpha \nalpha \nalpha \nomega");
        }
        other => panic!("expected a match, got {:?}", other),
    }
}

#[test]
fn timeout_is_tagged_with_the_read_context() {
    let mut engine = engine_with(&["#"], "--More--");
    assert!(matches!(
        engine.step(frame(b"partial output\n")).unwrap(),
        LineOutcome::Accumulating
    ));
    match engine.step(WaitEvent::TimedOut) {
        Err(TelnetError::Timeout(context)) => assert_eq!(context, "read next framed"),
        other => panic!("expected a timeout, got {:?}", other),
    }
}

#[test]
fn stream_close_is_distinct_from_timeout() {
    let mut engine = engine_with(&["#"], "--More--");
    let err = engine.step(WaitEvent::Closed).unwrap_err();
    assert!(matches!(err, TelnetError::NoMoreData));
    assert!(!matches!(err, TelnetError::Timeout(_)));
}

#[test]
fn matched_output_strips_prompt_and_trims() {
    let mut engine = engine_with(&[r"Switch#\s*"], "--More--");
    assert!(matches!(
        engine.step(frame(b"show version\r\n")).unwrap(),
        LineOutcome::Accumulating
    ));
    assert!(matches!(
        engine.step(frame(b"Cisco IOS...\r\n")).unwrap(),
        LineOutcome::Accumulating
    ));
    match engine.step(frame(b"Switch# ")).unwrap() {
        LineOutcome::Matched { output, .. } => {
            assert_eq!(output, "show version\r\nCisco IOS...");
        }
        other => panic!("expected a match, got {:?}", other),
    }
}

#[test]
fn buffer_is_empty_after_a_completed_cycle() {
    let mut engine = engine_with(&["#"], "--More--");
    match engine.step(frame(b"first#")).unwrap() {
        LineOutcome::Matched { output, .. } => assert_eq!(output, "first"),
        other => panic!("expected a match, got {:?}", other),
    }
    // A second cycle starts from an empty buffer: nothing of the first
    // cycle leaks into it.
    match engine.step(frame(b"second#")).unwrap() {
        LineOutcome::Matched { output, .. } => assert_eq!(output, "second"),
        other => panic!("expected a match, got {:?}", other),
    }
}

#[test]
fn explicit_prompt_overrides_the_configured_ones() {
    let mut engine = engine_with(&["NEVER"], "--More--");
    let password = Pattern::compile(r"Password:\s*").unwrap();
    assert!(matches!(
        engine.step_with(&password, frame(b"start shell\r\n")).unwrap(),
        LineOutcome::Accumulating
    ));
    match engine.step_with(&password, frame(b"Password: ")).unwrap() {
        LineOutcome::Matched { prompt_index, output } => {
            assert_eq!(prompt_index, 0);
            assert_eq!(output, "start shell");
        }
        other => panic!("expected a match, got {:?}", other),
    }
}

#[test]
fn explicit_prompt_turns_pages_too() {
    let mut engine = engine_with(&["NEVER"], "--More--");
    let prompt = Pattern::compile("># ").unwrap();
    assert!(matches!(
        engine.step_with(&prompt, frame(b"page --More--\n")).unwrap(),
        LineOutcome::PageBoundary
    ));
    match engine.step_with(&prompt, frame(b"tail\n># ")).unwrap() {
        LineOutcome::Matched { output, .. } => assert_eq!(output, "page \ntail"),
        other => panic!("expected a match, got {:?}", other),
    }
}

#[test]
fn page_boundary_takes_precedence_on_one_line() {
    // A line on which both the marker and a prompt match is a page
    // boundary: the cycle goes on, and a later line ends it.
    let mut engine = engine_with(&["#"], "--More--");
    assert!(matches!(
        engine.step(frame(b"x# --More--\n")).unwrap(),
        LineOutcome::PageBoundary
    ));
    match engine.step(frame(b"#")).unwrap() {
        LineOutcome::Matched { output, .. } => assert_eq!(output, "x"),
        other => panic!("expected a match, got {:?}", other),
    }
}

#[test]
fn empty_frame_accumulates_nothing() {
    let mut engine = engine_with(&["#"], "--More--");
    assert!(matches!(
        engine.step(frame(b"")).unwrap(),
        LineOutcome::Accumulating
    ));
    match engine.step(frame(b"done#")).unwrap() {
        LineOutcome::Matched { output, .. } => assert_eq!(output, "done"),
        other => panic!("expected a match, got {:?}", other),
    }
}

#[test]
fn undecodable_frame_fails_the_cycle() {
    let mut engine = engine_with(&["#"], "--More--");
    assert!(matches!(
        engine.step(frame(&[0xFF, 0xFF])),
        Err(TelnetError::ParseError(_))
    ));
}

#[test]
fn legacy_encoded_frame_is_decoded() {
    let mut engine = engine_with(&["#"], "--More--");
    // "你好" in GBK, then the prompt.
    match engine.step(frame(&[0xC4, 0xE3, 0xBA, 0xC3, b'#'])).unwrap() {
        LineOutcome::Matched { output, .. } => assert_eq!(output, "你好"),
        other => panic!("expected a match, got {:?}", other),
    }
}

#[test]
fn invalid_pattern_is_surfaced_at_compile_time() {
    match Pattern::compile("(") {
        Err(TelnetError::PatternError(text)) => assert_eq!(text, "("),
        Err(other) => panic!("expected a pattern error, got {:?}", other),
        Ok(_) => panic!("expected a pattern error, got a compiled pattern"),
    }
}
